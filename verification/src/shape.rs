use vstd::prelude::*;

use crate::fx;
use crate::fx::{FX_LIM, SCALE};
use crate::space::{Pose, Vec2, pose_wf};

verus! {

/// A collision silhouette. Points never collide with each other.
#[derive(Clone, Copy, Debug, PartialEq, Eq, Structural)]
pub enum Shape {
    Point,
    Circle { radius: i64 },
    Rectangle { half_size: Vec2 },
}

/// Sizes are positive and within the world bounds.
pub open spec fn shape_wf(s: Shape) -> bool {
    match s {
        Shape::Point => true,
        Shape::Circle { radius } => 0 < radius <= FX_LIM,
        Shape::Rectangle { half_size } => 0 < half_size.x <= FX_LIM && 0 < half_size.y <= FX_LIM,
    }
}

// The collision predicates are stated over exact integers. A relative pose
// carries its translation as numerators (tx, ty) over an explicit positive
// denominator d, and its rotation as numerators (c, s) over SCALE; executable
// code always passes d == 1, while proofs about inverted poses pass the
// exactly representable numerators over d * SCALE. No rounding occurs
// anywhere in a predicate, so the executable tests decide exactly the
// predicates below.

pub open spec fn circle_point_colliding(radius: int, tx: int, ty: int, d: int) -> bool {
    tx * tx + ty * ty < (d * radius) * (d * radius)
}

pub open spec fn circle_circle_colliding(ra: int, rb: int, tx: int, ty: int, d: int) -> bool {
    tx * tx + ty * ty < (d * (ra + rb)) * (d * (ra + rb))
}

/// Touching the boundary counts as contact for rectangles.
pub open spec fn rect_point_colliding(hx: int, hy: int, tx: int, ty: int, d: int) -> bool {
    fx::abs_spec(tx) <= d * hx && fx::abs_spec(ty) <= d * hy
}

/// The circle test against an axis-aligned rectangle: side bands first, then
/// the corner reduces to a point-circle test on the remaining offset.
pub open spec fn rect_circle_colliding(hx: int, hy: int, r: int, tx: int, ty: int, d: int) -> bool {
    let ax = fx::abs_spec(tx);
    let ay = fx::abs_spec(ty);
    if ay <= d * hy {
        ax <= d * (hx + r)
    } else if ax <= d * hx {
        ay <= d * (hy + r)
    } else {
        circle_point_colliding(r, ax - d * hx, ay - d * hy, d)
    }
}

pub open spec fn max_spec(a: int, b: int) -> int {
    if a >= b {
        a
    } else {
        b
    }
}

/// Horizontal half-extent (times SCALE) of a rectangle rotated by (c, s).
pub open spec fn rect_extent_x(hx: int, hy: int, c: int, s: int) -> int {
    max_spec(fx::abs_spec(hx * c - hy * s), fx::abs_spec(hx * c + hy * s))
}

/// Vertical half-extent (times SCALE) of a rectangle rotated by (c, s).
pub open spec fn rect_extent_y(hx: int, hy: int, c: int, s: int) -> int {
    max_spec(fx::abs_spec(hx * s + hy * c), fx::abs_spec(hx * s - hy * c))
}

/// One direction of the separating-axis test: b's rotated bounding extent in
/// a's frame against the translation, per axis.
pub open spec fn rect_rect_one_sided(
    hax: int,
    hay: int,
    hbx: int,
    hby: int,
    tx: int,
    ty: int,
    c: int,
    s: int,
    d: int,
) -> bool {
    fx::abs_spec(tx) * SCALE <= d * (hax * SCALE + rect_extent_x(hbx, hby, c, s)) && fx::abs_spec(
        ty,
    ) * SCALE <= d * (hay * SCALE + rect_extent_y(hbx, hby, c, s))
}

/// Numerator of the x translation of the inverted pose, over d * SCALE.
pub open spec fn inv_tx(tx: int, ty: int, c: int, s: int) -> int {
    -(c * tx + s * ty)
}

/// Numerator of the y translation of the inverted pose, over d * SCALE.
pub open spec fn inv_ty(tx: int, ty: int, c: int, s: int) -> int {
    s * tx - c * ty
}

/// Both directions of the separating-axis test must pass.
pub open spec fn rect_rect_colliding(
    hax: int,
    hay: int,
    hbx: int,
    hby: int,
    tx: int,
    ty: int,
    c: int,
    s: int,
    d: int,
) -> bool {
    rect_rect_one_sided(hax, hay, hbx, hby, tx, ty, c, s, d) && rect_rect_one_sided(
        hbx,
        hby,
        hax,
        hay,
        inv_tx(tx, ty, c, s),
        inv_ty(tx, ty, c, s),
        c,
        -s,
        d * SCALE,
    )
}

/// The exact collision predicate: the relative pose carries a's frame into
/// b's frame.
pub open spec fn colliding(a: Shape, b: Shape, tx: int, ty: int, c: int, s: int, d: int) -> bool {
    match (a, b) {
        (Shape::Point, Shape::Point) => false,
        (Shape::Point, Shape::Circle { radius }) => circle_point_colliding(radius as int, tx, ty, d),
        (Shape::Circle { radius }, Shape::Point) => circle_point_colliding(radius as int, tx, ty, d),
        (Shape::Circle { radius: ra }, Shape::Circle { radius: rb }) => circle_circle_colliding(
            ra as int,
            rb as int,
            tx,
            ty,
            d,
        ),
        (Shape::Point, Shape::Rectangle { half_size }) => rect_point_colliding(
            half_size.x as int,
            half_size.y as int,
            inv_tx(tx, ty, c, s),
            inv_ty(tx, ty, c, s),
            d * SCALE,
        ),
        (Shape::Rectangle { half_size }, Shape::Point) => rect_point_colliding(
            half_size.x as int,
            half_size.y as int,
            tx,
            ty,
            d,
        ),
        (Shape::Circle { radius }, Shape::Rectangle { half_size }) => rect_circle_colliding(
            half_size.x as int,
            half_size.y as int,
            radius as int,
            inv_tx(tx, ty, c, s),
            inv_ty(tx, ty, c, s),
            d * SCALE,
        ),
        (Shape::Rectangle { half_size }, Shape::Circle { radius }) => rect_circle_colliding(
            half_size.x as int,
            half_size.y as int,
            radius as int,
            tx,
            ty,
            d,
        ),
        (Shape::Rectangle { half_size: ha }, Shape::Rectangle { half_size: hb }) => {
            rect_rect_colliding(
                ha.x as int,
                ha.y as int,
                hb.x as int,
                hb.y as int,
                tx,
                ty,
                c,
                s,
                d,
            )
        },
    }
}

fn abs_i128(x: i128) -> (r: i128)
    requires
        x != i128::MIN,
    ensures
        r == fx::abs_spec(x as int),
{
    if x < 0 {
        -x
    } else {
        x
    }
}

/// Bound on pose numerators handed to the executable comparisons.
pub open spec fn num_bound(x: int) -> bool {
    fx::abs_spec(x) <= 4000000000000
}

fn circle_point_exec(radius: i64, tx: i128, ty: i128, d: i64) -> (r: bool)
    requires
        0 < radius <= FX_LIM,
        num_bound(tx as int),
        num_bound(ty as int),
        1 <= d <= SCALE,
    ensures
        r == circle_point_colliding(radius as int, tx as int, ty as int, d as int),
{
    assert(fx::abs_spec((d as int) * (radius as int)) <= 1000000000000int && fx::abs_spec(
        (tx as int) * (tx as int),
    ) <= 16000000000000000000000000int && fx::abs_spec((ty as int) * (ty as int))
        <= 16000000000000000000000000int && fx::abs_spec(
        ((d as int) * (radius as int)) * ((d as int) * (radius as int)),
    ) <= 16000000000000000000000000int) by (nonlinear_arith)
        requires
            0 < radius <= FX_LIM,
            num_bound(tx as int),
            num_bound(ty as int),
            1 <= d <= SCALE,
    ;
    let rad: i128 = (d as i128) * (radius as i128);
    tx * tx + ty * ty < rad * rad
}

fn circle_circle_exec(ra: i64, rb: i64, tx: i128, ty: i128, d: i64) -> (r: bool)
    requires
        0 <= ra <= 3 * FX_LIM,
        0 <= rb <= 3 * FX_LIM,
        num_bound(tx as int),
        num_bound(ty as int),
        1 <= d <= SCALE,
    ensures
        r == circle_circle_colliding(ra as int, rb as int, tx as int, ty as int, d as int),
{
    assert(fx::abs_spec((d as int) * ((ra as int) + (rb as int))) <= 6000000000000int
        && fx::abs_spec((tx as int) * (tx as int)) <= 16000000000000000000000000int && fx::abs_spec(
        (ty as int) * (ty as int),
    ) <= 16000000000000000000000000int && fx::abs_spec(
        ((d as int) * ((ra as int) + (rb as int))) * ((d as int) * ((ra as int) + (rb as int))),
    ) <= 36000000000000000000000000int) by (nonlinear_arith)
        requires
            0 <= ra <= 3 * FX_LIM,
            0 <= rb <= 3 * FX_LIM,
            num_bound(tx as int),
            num_bound(ty as int),
            1 <= d <= SCALE,
    ;
    let sum: i128 = (ra as i128) + (rb as i128);
    let rad: i128 = (d as i128) * sum;
    tx * tx + ty * ty < rad * rad
}

fn rect_point_exec(hx: i64, hy: i64, tx: i128, ty: i128, d: i64) -> (r: bool)
    requires
        0 < hx <= FX_LIM,
        0 < hy <= FX_LIM,
        num_bound(tx as int),
        num_bound(ty as int),
        1 <= d <= SCALE,
    ensures
        r == rect_point_colliding(hx as int, hy as int, tx as int, ty as int, d as int),
{
    let ax: i128 = abs_i128(tx);
    let ay: i128 = abs_i128(ty);
    assert(fx::abs_spec((d as i128) as int * hx as int) <= 1000000000000int && fx::abs_spec(
        (d as i128) as int * hy as int,
    ) <= 1000000000000int) by (nonlinear_arith)
        requires
            0 < hx <= FX_LIM,
            0 < hy <= FX_LIM,
            1 <= d <= SCALE,
    ;
    ax <= (d as i128) * (hx as i128) && ay <= (d as i128) * (hy as i128)
}

fn rect_circle_exec(hx: i64, hy: i64, radius: i64, tx: i128, ty: i128, d: i64) -> (r: bool)
    requires
        0 < hx <= FX_LIM,
        0 < hy <= FX_LIM,
        0 < radius <= FX_LIM,
        num_bound(tx as int),
        num_bound(ty as int),
        1 <= d <= SCALE,
    ensures
        r == rect_circle_colliding(hx as int, hy as int, radius as int, tx as int, ty as int, d as int),
{
    let ax: i128 = abs_i128(tx);
    let ay: i128 = abs_i128(ty);
    let di: i128 = d as i128;
    assert(fx::abs_spec(di as int * hx as int) <= 1000000000000int && fx::abs_spec(
        di as int * hy as int,
    ) <= 1000000000000int && fx::abs_spec(di as int * (hx as int + radius as int))
        <= 2000000000000int && fx::abs_spec(di as int * (hy as int + radius as int))
        <= 2000000000000int && fx::abs_spec(di as int * (radius as int))
        <= 1000000000000int) by (nonlinear_arith)
        requires
            0 < hx <= FX_LIM,
            0 < hy <= FX_LIM,
            0 < radius <= FX_LIM,
            1 <= d <= SCALE,
            di == d as i128,
    ;
    if ay <= di * (hy as i128) {
        ax <= di * ((hx as i128) + (radius as i128))
    } else if ax <= di * (hx as i128) {
        ay <= di * ((hy as i128) + (radius as i128))
    } else {
        let cx: i128 = ax - di * (hx as i128);
        let cy: i128 = ay - di * (hy as i128);
        let rad: i128 = di * (radius as i128);
        assert(fx::abs_spec(cx as int * cx as int) <= 25000000000000000000000000int
            && fx::abs_spec(cy as int * cy as int) <= 25000000000000000000000000int && fx::abs_spec(
            rad as int * rad as int,
        ) <= 1000000000000000000000000int) by (nonlinear_arith)
            requires
                fx::abs_spec(cx as int) <= 5000000000000int,
                fx::abs_spec(cy as int) <= 5000000000000int,
                fx::abs_spec(rad as int) <= 1000000000000int,
        ;
        cx * cx + cy * cy < rad * rad
    }
}

fn rect_extent_x_exec(hx: i64, hy: i64, c: i64, s: i64) -> (r: i128)
    requires
        0 < hx <= FX_LIM,
        0 < hy <= FX_LIM,
        fx::abs_spec(c as int) <= SCALE,
        fx::abs_spec(s as int) <= SCALE,
    ensures
        r == rect_extent_x(hx as int, hy as int, c as int, s as int),
        0 <= r <= 2000000000000,
{
    assert(fx::abs_spec(hx as int * c as int) <= 1000000000000int && fx::abs_spec(
        hy as int * s as int,
    ) <= 1000000000000int) by (nonlinear_arith)
        requires
            0 < hx <= FX_LIM,
            0 < hy <= FX_LIM,
            fx::abs_spec(c as int) <= SCALE,
            fx::abs_spec(s as int) <= SCALE,
    ;
    let a: i128 = (hx as i128) * (c as i128) - (hy as i128) * (s as i128);
    let b: i128 = (hx as i128) * (c as i128) + (hy as i128) * (s as i128);
    let aa: i128 = abs_i128(a);
    let ab: i128 = abs_i128(b);
    if aa >= ab {
        aa
    } else {
        ab
    }
}

fn rect_extent_y_exec(hx: i64, hy: i64, c: i64, s: i64) -> (r: i128)
    requires
        0 < hx <= FX_LIM,
        0 < hy <= FX_LIM,
        fx::abs_spec(c as int) <= SCALE,
        fx::abs_spec(s as int) <= SCALE,
    ensures
        r == rect_extent_y(hx as int, hy as int, c as int, s as int),
        0 <= r <= 2000000000000,
{
    assert(fx::abs_spec(hx as int * s as int) <= 1000000000000int && fx::abs_spec(
        hy as int * c as int,
    ) <= 1000000000000int) by (nonlinear_arith)
        requires
            0 < hx <= FX_LIM,
            0 < hy <= FX_LIM,
            fx::abs_spec(c as int) <= SCALE,
            fx::abs_spec(s as int) <= SCALE,
    ;
    let a: i128 = (hx as i128) * (s as i128) + (hy as i128) * (c as i128);
    let b: i128 = (hx as i128) * (s as i128) - (hy as i128) * (c as i128);
    let aa: i128 = abs_i128(a);
    let ab: i128 = abs_i128(b);
    if aa >= ab {
        aa
    } else {
        ab
    }
}

fn rect_rect_one_sided_exec(
    hax: i64,
    hay: i64,
    hbx: i64,
    hby: i64,
    tx: i128,
    ty: i128,
    c: i64,
    s: i64,
    d: i64,
) -> (r: bool)
    requires
        0 < hax <= FX_LIM,
        0 < hay <= FX_LIM,
        0 < hbx <= FX_LIM,
        0 < hby <= FX_LIM,
        num_bound(tx as int),
        num_bound(ty as int),
        fx::abs_spec(c as int) <= SCALE,
        fx::abs_spec(s as int) <= SCALE,
        1 <= d <= SCALE,
    ensures
        r == rect_rect_one_sided(
            hax as int,
            hay as int,
            hbx as int,
            hby as int,
            tx as int,
            ty as int,
            c as int,
            s as int,
            d as int,
        ),
{
    let ex: i128 = rect_extent_x_exec(hbx, hby, c, s);
    let ey: i128 = rect_extent_y_exec(hbx, hby, c, s);
    let ax: i128 = abs_i128(tx);
    let ay: i128 = abs_i128(ty);
    assert(fx::abs_spec(ax as int * 1000) <= 4000000000000000int && fx::abs_spec(ay as int * 1000)
        <= 4000000000000000int) by (nonlinear_arith)
        requires
            0 <= ax as int <= 4000000000000int,
            0 <= ay as int <= 4000000000000int,
    ;
    let lhs_x: i128 = ax * (SCALE as i128);
    let lhs_y: i128 = ay * (SCALE as i128);
    assert(fx::abs_spec(hax as int * 1000) <= 1000000000000int && fx::abs_spec(hay as int * 1000)
        <= 1000000000000int) by (nonlinear_arith)
        requires
            0 < hax <= FX_LIM,
            0 < hay <= FX_LIM,
    ;
    assert(fx::abs_spec(d as int * (hax as int * 1000 + ex as int)) <= 3000000000000000int
        && fx::abs_spec(d as int * (hay as int * 1000 + ey as int)) <= 3000000000000000int)
        by (nonlinear_arith)
        requires
            1 <= d <= SCALE,
            fx::abs_spec(hax as int * 1000 + ex as int) <= 3000000000000int,
            fx::abs_spec(hay as int * 1000 + ey as int) <= 3000000000000int,
    ;
    let rhs_x: i128 = (d as i128) * ((hax as i128) * (SCALE as i128) + ex);
    let rhs_y: i128 = (d as i128) * ((hay as i128) * (SCALE as i128) + ey);
    lhs_x <= rhs_x && lhs_y <= rhs_y
}

/// The numerators of the inverted pose translation, over d * SCALE.
fn inv_translation_exec(tx: i128, ty: i128, c: i64, s: i64) -> (r: (i128, i128))
    requires
        fx::abs_spec(tx as int) <= FX_LIM,
        fx::abs_spec(ty as int) <= FX_LIM,
        fx::abs_spec(c as int) <= SCALE,
        fx::abs_spec(s as int) <= SCALE,
    ensures
        r.0 == inv_tx(tx as int, ty as int, c as int, s as int),
        r.1 == inv_ty(tx as int, ty as int, c as int, s as int),
        num_bound(r.0 as int),
        num_bound(r.1 as int),
{
    assert(fx::abs_spec(c as int * tx as int) <= 1000000000000int && fx::abs_spec(
        s as int * ty as int,
    ) <= 1000000000000int && fx::abs_spec(s as int * tx as int) <= 1000000000000int && fx::abs_spec(
        c as int * ty as int,
    ) <= 1000000000000int) by (nonlinear_arith)
        requires
            fx::abs_spec(tx as int) <= FX_LIM,
            fx::abs_spec(ty as int) <= FX_LIM,
            fx::abs_spec(c as int) <= SCALE,
            fx::abs_spec(s as int) <= SCALE,
    ;
    let ix: i128 = -((c as i128) * tx + (s as i128) * ty);
    let iy: i128 = (s as i128) * tx - (c as i128) * ty;
    (ix, iy)
}

impl Shape {
    /// Exact strict-overlap test; `offset` is the rigid pose carrying
    /// `self`'s frame into `other`'s frame. Point pairs never collide, and
    /// two circles collide exactly when the squared center distance is less
    /// than the squared sum of radii, so tangent circles do not collide.
    pub fn is_colliding(&self, other: &Shape, offset: Pose) -> (r: bool)
        requires
            shape_wf(*self),
            shape_wf(*other),
            pose_wf(offset),
        ensures
            r == colliding(
                *self,
                *other,
                offset.tx as int,
                offset.ty as int,
                offset.rot.c as int,
                offset.rot.s as int,
                1,
            ),
            (*self is Point && *other is Point) ==> !r,
    {
        let tx: i128 = offset.tx as i128;
        let ty: i128 = offset.ty as i128;
        let c: i64 = offset.rot.c;
        let s: i64 = offset.rot.s;
        proof {
            assert(1int * (1 * 1) == 1);
        }
        match (self, other) {
            (Shape::Point, Shape::Point) => false,
            (Shape::Point, Shape::Circle { radius }) => {
                proof {
                    lemma_mul_d1(*radius as int, tx as int, ty as int);
                }
                circle_point_exec(*radius, tx, ty, 1)
            },
            (Shape::Circle { radius }, Shape::Point) => {
                proof {
                    lemma_mul_d1(*radius as int, tx as int, ty as int);
                }
                circle_point_exec(*radius, tx, ty, 1)
            },
            (Shape::Circle { radius: ra }, Shape::Circle { radius: rb }) => {
                proof {
                    lemma_mul_d1(*ra as int + *rb as int, tx as int, ty as int);
                }
                circle_circle_exec(*ra, *rb, tx, ty, 1)
            },
            (Shape::Point, Shape::Rectangle { half_size }) => {
                let (ix, iy) = inv_translation_exec(tx, ty, c, s);
                rect_point_exec(half_size.x, half_size.y, ix, iy, SCALE)
            },
            (Shape::Rectangle { half_size }, Shape::Point) => {
                rect_point_exec(half_size.x, half_size.y, tx, ty, 1)
            },
            (Shape::Circle { radius }, Shape::Rectangle { half_size }) => {
                let (ix, iy) = inv_translation_exec(tx, ty, c, s);
                rect_circle_exec(half_size.x, half_size.y, *radius, ix, iy, SCALE)
            },
            (Shape::Rectangle { half_size }, Shape::Circle { radius }) => {
                rect_circle_exec(half_size.x, half_size.y, *radius, tx, ty, 1)
            },
            (Shape::Rectangle { half_size: ha }, Shape::Rectangle { half_size: hb }) => {
                let (ix, iy) = inv_translation_exec(tx, ty, c, s);
                let fwd: bool = rect_rect_one_sided_exec(
                    ha.x,
                    ha.y,
                    hb.x,
                    hb.y,
                    tx,
                    ty,
                    c,
                    s,
                    1,
                );
                let ns: i64 = -s;
                let bwd: bool = rect_rect_one_sided_exec(
                    hb.x,
                    hb.y,
                    ha.x,
                    ha.y,
                    ix,
                    iy,
                    c,
                    ns,
                    SCALE,
                );
                fwd && bwd
            },
        }
    }
}

/// At denominator one the scaled radius is the radius itself.
proof fn lemma_mul_d1(r: int, tx: int, ty: int)
    ensures
        (1 * r) * (1 * r) == r * r,
{
}

// ------------------------------------------------------------------
// Symmetry of the collision predicate.
//
// Inverting an exact pose (tx/d, ty/d, (c + i s)/SCALE) gives the pose
// with rotation (c - i s)/SCALE and translation numerators inv_tx, inv_ty
// over the finer denominator d * SCALE. The lemmas below show that the
// predicate does not depend on the common scale of a pose, and that
// testing the shapes in either order gives the same answer.
// ------------------------------------------------------------------

/// A positive factor can be cancelled from a strict comparison.
proof fn lemma_pos_mul_lt(p: int, a: int, b: int)
    requires
        p > 0,
    ensures
        (p * a < p * b) <==> (a < b),
{
    assert((p * a < p * b) <==> (a < b)) by (nonlinear_arith)
        requires
            p > 0,
    ;
}

/// A positive factor can be cancelled from a comparison.
proof fn lemma_pos_mul_le(p: int, a: int, b: int)
    requires
        p > 0,
    ensures
        (p * a <= p * b) <==> (a <= b),
{
    assert((p * a <= p * b) <==> (a <= b)) by (nonlinear_arith)
        requires
            p > 0,
    ;
}

/// The square of a scaled value.
proof fn lemma_sq_expand(k: int, x: int)
    ensures
        (k * x) * (k * x) == (k * k) * (x * x),
{
    assert((k * x) * (k * x) == (k * k) * (x * x)) by (nonlinear_arith);
}

/// A positive factor moves through the absolute value.
proof fn lemma_abs_scale(k: int, x: int)
    requires
        k > 0,
    ensures
        fx::abs_spec(k * x) == k * fx::abs_spec(x),
{
    assert(x >= 0 ==> k * x >= 0 && x < 0 ==> k * x < 0 && k * (-x) == -(k * x))
        by (nonlinear_arith)
        requires
            k > 0,
    ;
    if x >= 0 {
        assert(k * x >= 0) by (nonlinear_arith)
            requires
                k > 0,
                x >= 0,
        ;
    } else {
        assert(k * x < 0) by (nonlinear_arith)
            requires
                k > 0,
                x < 0,
        ;
        assert(k * (-x) == -(k * x)) by (nonlinear_arith);
    }
}

/// Multiplication distributes over a two-term sum.
proof fn lemma_mul_distrib(k: int, a: int, b: int)
    ensures
        k * (a + b) == k * a + k * b,
        k * (a - b) == k * a - k * b,
{
    assert(k * (a + b) == k * a + k * b) by (nonlinear_arith);
    assert(k * (a - b) == k * a - k * b) by (nonlinear_arith);
}

/// Distribution from the left over a sum of coefficients.
proof fn lemma_mul_distrib_rhs(a: int, b: int, x: int)
    ensures
        (a + b) * x == a * x + b * x,
{
    assert((a + b) * x == a * x + b * x) by (nonlinear_arith);
}

/// The square of a two-term sum.
proof fn lemma_sq_sum(u: int, v: int)
    ensures
        (u + v) * (u + v) == u * u + 2 * (u * v) + v * v,
{
    assert((u + v) * (u + v) == u * u + 2 * (u * v) + v * v) by (nonlinear_arith);
}

/// The square of a two-term difference.
proof fn lemma_sq_diff(u: int, v: int)
    ensures
        (u - v) * (u - v) == u * u - 2 * (u * v) + v * v,
{
    assert((u - v) * (u - v) == u * u - 2 * (u * v) + v * v) by (nonlinear_arith);
}

/// Magnitudes are preserved by an exact unit rotation: the inverted
/// translation numerators have the starting squared norm, times
/// SCALE squared.
#[verifier::rlimit(50)]
proof fn lemma_inv_norm(tx: int, ty: int, c: int, s: int)
    requires
        c * c + s * s == SCALE * SCALE,
    ensures
        inv_tx(tx, ty, c, s) * inv_tx(tx, ty, c, s) + inv_ty(tx, ty, c, s) * inv_ty(tx, ty, c, s)
            == (SCALE * SCALE) * (tx * tx + ty * ty),
{
    let a = c * tx + s * ty;
    let b = s * tx - c * ty;
    let u = c * tx;
    let v = s * ty;
    let w = s * tx;
    let z = c * ty;
    assert((-a) * (-a) == a * a) by (nonlinear_arith);
    lemma_sq_sum(u, v);
    lemma_sq_diff(w, z);
    lemma_sq_expand(c, tx);
    lemma_sq_expand(s, ty);
    lemma_sq_expand(s, tx);
    lemma_sq_expand(c, ty);
    assert(u * v == w * z) by (nonlinear_arith)
        requires
            u == c * tx,
            v == s * ty,
            w == s * tx,
            z == c * ty,
    ;
    lemma_mul_distrib_rhs(c * c, s * s, tx * tx);
    lemma_mul_distrib_rhs(c * c, s * s, ty * ty);
    lemma_mul_distrib(c * c + s * s, tx * tx, ty * ty);
}

/// Inverting an inverted pose scales the starting numerators by
/// SCALE * SCALE.
#[verifier::rlimit(50)]
proof fn lemma_inv_involution(tx: int, ty: int, c: int, s: int)
    requires
        c * c + s * s == SCALE * SCALE,
    ensures
        inv_tx(inv_tx(tx, ty, c, s), inv_ty(tx, ty, c, s), c, -s) == (SCALE * SCALE) * tx,
        inv_ty(inv_tx(tx, ty, c, s), inv_ty(tx, ty, c, s), c, -s) == (SCALE * SCALE) * ty,
{
    assert(-(c * (-(c * tx + s * ty)) + (-s) * (s * tx - c * ty)) == (c * c + s * s) * tx)
        by (nonlinear_arith);
    assert((-s) * (-(c * tx + s * ty)) - c * (s * tx - c * ty) == (c * c + s * s) * ty)
        by (nonlinear_arith);
}

/// The point-circle predicate only depends on the pose, not on the common
/// scale of its numerators and denominator.
proof fn lemma_circle_point_scale(r: int, tx: int, ty: int, d: int, k: int)
    requires
        k > 0,
    ensures
        circle_point_colliding(r, k * tx, k * ty, k * d) == circle_point_colliding(r, tx, ty, d),
{
    let kk = k * k;
    assert(kk > 0) by (nonlinear_arith)
        requires
            k > 0,
            kk == k * k,
    ;
    lemma_sq_expand(k, tx);
    lemma_sq_expand(k, ty);
    assert((k * d) * r == k * (d * r)) by (nonlinear_arith);
    lemma_sq_expand(k, d * r);
    lemma_mul_distrib(kk, tx * tx, ty * ty);
    lemma_pos_mul_lt(kk, tx * tx + ty * ty, (d * r) * (d * r));
}

/// Scale independence of the point-rectangle predicate.
proof fn lemma_rect_point_scale(hx: int, hy: int, tx: int, ty: int, d: int, k: int)
    requires
        k > 0,
    ensures
        rect_point_colliding(hx, hy, k * tx, k * ty, k * d) == rect_point_colliding(
            hx,
            hy,
            tx,
            ty,
            d,
        ),
{
    lemma_abs_scale(k, tx);
    lemma_abs_scale(k, ty);
    assert((k * d) * hx == k * (d * hx)) by (nonlinear_arith);
    assert((k * d) * hy == k * (d * hy)) by (nonlinear_arith);
    lemma_pos_mul_le(k, fx::abs_spec(tx), d * hx);
    lemma_pos_mul_le(k, fx::abs_spec(ty), d * hy);
}

/// Scale independence of the circle-rectangle predicate.
proof fn lemma_rect_circle_scale(hx: int, hy: int, r: int, tx: int, ty: int, d: int, k: int)
    requires
        k > 0,
    ensures
        rect_circle_colliding(hx, hy, r, k * tx, k * ty, k * d) == rect_circle_colliding(
            hx,
            hy,
            r,
            tx,
            ty,
            d,
        ),
{
    let ax = fx::abs_spec(tx);
    let ay = fx::abs_spec(ty);
    lemma_abs_scale(k, tx);
    lemma_abs_scale(k, ty);
    assert((k * d) * hx == k * (d * hx)) by (nonlinear_arith);
    assert((k * d) * hy == k * (d * hy)) by (nonlinear_arith);
    assert((k * d) * (hx + r) == k * (d * (hx + r))) by (nonlinear_arith);
    assert((k * d) * (hy + r) == k * (d * (hy + r))) by (nonlinear_arith);
    lemma_pos_mul_le(k, ay, d * hy);
    lemma_pos_mul_le(k, ax, d * hx);
    lemma_pos_mul_le(k, ax, d * (hx + r));
    lemma_pos_mul_le(k, ay, d * (hy + r));
    if !(ay <= d * hy) && !(ax <= d * hx) {
        lemma_mul_distrib(k, ax, d * hx);
        lemma_mul_distrib(k, ay, d * hy);
        assert(k * ax - (k * d) * hx == k * (ax - d * hx));
        assert(k * ay - (k * d) * hy == k * (ay - d * hy));
        lemma_circle_point_scale(r, ax - d * hx, ay - d * hy, d, k);
    }
}

/// Scale independence of one direction of the separating-axis test.
proof fn lemma_one_sided_scale(
    hax: int,
    hay: int,
    hbx: int,
    hby: int,
    tx: int,
    ty: int,
    c: int,
    s: int,
    d: int,
    k: int,
)
    requires
        k > 0,
    ensures
        rect_rect_one_sided(hax, hay, hbx, hby, k * tx, k * ty, c, s, k * d)
            == rect_rect_one_sided(hax, hay, hbx, hby, tx, ty, c, s, d),
{
    let ex = rect_extent_x(hbx, hby, c, s);
    let ey = rect_extent_y(hbx, hby, c, s);
    lemma_abs_scale(k, tx);
    lemma_abs_scale(k, ty);
    assert((k * fx::abs_spec(tx)) * SCALE == k * (fx::abs_spec(tx) * SCALE)) by (nonlinear_arith);
    assert((k * fx::abs_spec(ty)) * SCALE == k * (fx::abs_spec(ty) * SCALE)) by (nonlinear_arith);
    assert((k * d) * (hax * SCALE + ex) == k * (d * (hax * SCALE + ex))) by (nonlinear_arith);
    assert((k * d) * (hay * SCALE + ey) == k * (d * (hay * SCALE + ey))) by (nonlinear_arith);
    lemma_pos_mul_le(k, fx::abs_spec(tx) * SCALE, d * (hax * SCALE + ex));
    lemma_pos_mul_le(k, fx::abs_spec(ty) * SCALE, d * (hay * SCALE + ey));
}

/// The circle cases of the symmetry lemma: the inverted translation keeps
/// the squared distance comparison, rescaled by SCALE squared.
proof fn lemma_circle_symmetry_case(r: int, tx: int, ty: int, c: int, s: int, d: int)
    requires
        d >= 1,
        c * c + s * s == SCALE * SCALE,
    ensures
        circle_point_colliding(r, inv_tx(tx, ty, c, s), inv_ty(tx, ty, c, s), d * SCALE)
            == circle_point_colliding(r, tx, ty, d),
{
    let ss = SCALE * SCALE;
    lemma_inv_norm(tx, ty, c, s);
    assert((d * SCALE) * r == SCALE * (d * r)) by (nonlinear_arith);
    lemma_sq_expand(SCALE as int, d * r);
    lemma_pos_mul_lt(ss, tx * tx + ty * ty, (d * r) * (d * r));
}

/// Two circles collide exactly when the squared center distance is
/// strictly below the squared sum of radii: tangent circles do not
/// collide.
pub proof fn lemma_circle_circle_criterion(ra: i64, rb: i64, tx: int, ty: int, c: int, s: int)
    ensures
        colliding(
            Shape::Circle { radius: ra },
            Shape::Circle { radius: rb },
            tx,
            ty,
            c,
            s,
            1,
        ) <==> tx * tx + ty * ty < (ra + rb) * (ra + rb),
{
    assert(1 * (ra as int + rb as int) == ra as int + rb as int);
}

/// Point pairs never register contact, whatever the offset.
pub proof fn lemma_point_point_never_collides(tx: int, ty: int, c: int, s: int, d: int)
    ensures
        !colliding(Shape::Point, Shape::Point, tx, ty, c, s, d),
{
}

/// The collision test is symmetric: testing b against a under the exactly
/// inverted pose gives the same answer as testing a against b. The inverted
/// pose of (tx/d, ty/d) with unit rotation (c, s) has rotation (c, -s) and
/// translation numerators inv_tx, inv_ty over d * SCALE.
pub proof fn lemma_is_colliding_symmetric(
    a: Shape,
    b: Shape,
    tx: int,
    ty: int,
    c: int,
    s: int,
    d: int,
)
    requires
        shape_wf(a),
        shape_wf(b),
        d >= 1,
        c * c + s * s == SCALE * SCALE,
    ensures
        colliding(a, b, tx, ty, c, s, d) == colliding(
            b,
            a,
            inv_tx(tx, ty, c, s),
            inv_ty(tx, ty, c, s),
            c,
            -s,
            d * SCALE,
        ),
{
    let itx = inv_tx(tx, ty, c, s);
    let ity = inv_ty(tx, ty, c, s);
    let ss = SCALE * SCALE;
    assert(d * SCALE >= 1) by (nonlinear_arith)
        requires
            d >= 1,
    ;
    lemma_inv_involution(tx, ty, c, s);
    match (a, b) {
        (Shape::Point, Shape::Point) => {},
        (Shape::Point, Shape::Circle { radius }) => {
            lemma_circle_symmetry_case(radius as int, tx, ty, c, s, d);
        },
        (Shape::Circle { radius }, Shape::Point) => {
            lemma_circle_symmetry_case(radius as int, tx, ty, c, s, d);
        },
        (Shape::Circle { radius: ra }, Shape::Circle { radius: rb }) => {
            lemma_circle_symmetry_case(ra as int + rb as int, tx, ty, c, s, d);
        },
        (Shape::Point, Shape::Rectangle { half_size }) => {
            // Both sides are the same point-rectangle test at d * SCALE.
        },
        (Shape::Rectangle { half_size }, Shape::Point) => {
            // The doubly inverted pose has numerators ss * tx over d * ss.
            assert((d * SCALE) * SCALE == d * (SCALE * SCALE)) by (nonlinear_arith);
            assert((SCALE * SCALE) * d == d * (SCALE * SCALE)) by (nonlinear_arith);
            lemma_rect_point_scale(half_size.x as int, half_size.y as int, tx, ty, d, ss);
        },
        (Shape::Circle { radius }, Shape::Rectangle { half_size }) => {
            // Both sides are the same circle-rectangle test at d * SCALE.
        },
        (Shape::Rectangle { half_size }, Shape::Circle { radius }) => {
            assert((d * SCALE) * SCALE == d * (SCALE * SCALE)) by (nonlinear_arith);
            assert((SCALE * SCALE) * d == d * (SCALE * SCALE)) by (nonlinear_arith);
            lemma_rect_circle_scale(
                half_size.x as int,
                half_size.y as int,
                radius as int,
                tx,
                ty,
                d,
                ss,
            );
        },
        (Shape::Rectangle { half_size: ha }, Shape::Rectangle { half_size: hb }) => {
            assert((d * SCALE) * SCALE == d * (SCALE * SCALE)) by (nonlinear_arith);
            assert((SCALE * SCALE) * d == d * (SCALE * SCALE)) by (nonlinear_arith);
            assert(-(-s) == s);
            lemma_one_sided_scale(
                ha.x as int,
                ha.y as int,
                hb.x as int,
                hb.y as int,
                tx,
                ty,
                c,
                s,
                d,
                ss,
            );
        },
    }
}

// ------------------------------------------------------------------
// Broad-phase bounding circles.
//
// Every shape gets a conservative bounding radius: zero for a point, the
// radius for a circle, and the half-extent sum rounded strictly outward
// for a rectangle. Any pair whose bounding circles fail the circle test
// is guaranteed to fail the exact test, so callers may cull with the
// circle test alone.
// ------------------------------------------------------------------

pub open spec fn bounding_radius_spec(s: Shape) -> int {
    match s {
        Shape::Point => 0,
        Shape::Circle { radius } => radius as int,
        Shape::Rectangle { half_size } => half_size.x + half_size.y + 1,
    }
}

impl Shape {
    /// The radius of a circle around the shape's center that strictly
    /// contains the shape.
    pub fn bounding_circle(&self) -> (r: i64)
        requires
            shape_wf(*self),
        ensures
            r == bounding_radius_spec(*self),
            0 <= r <= 2 * FX_LIM + 1,
    {
        match self {
            Shape::Point => 0,
            Shape::Circle { radius } => *radius,
            Shape::Rectangle { half_size } => half_size.x + half_size.y + 1,
        }
    }
}

/// Squaring preserves order on magnitudes.
proof fn lemma_sq_le(a: int, b: int)
    requires
        fx::abs_spec(a) <= b,
    ensures
        a * a <= b * b,
{
    assert(a * a <= b * b) by (nonlinear_arith)
        requires
            fx::abs_spec(a) <= b,
    ;
}

/// A point held inside a box lies strictly within the box's outward
/// rounded diagonal.
proof fn lemma_box_dist(hx: int, hy: int, tx: int, ty: int, d: int, bc: int)
    requires
        d >= 1,
        hx >= 0,
        hy >= 0,
        bc >= hx + hy + 1,
        fx::abs_spec(tx) <= d * hx,
        fx::abs_spec(ty) <= d * hy,
    ensures
        tx * tx + ty * ty < (d * bc) * (d * bc),
{
    lemma_sq_le(tx, d * hx);
    lemma_sq_le(ty, d * hy);
    assert((d * hx) * (d * hx) + (d * hy) * (d * hy) < (d * bc) * (d * bc)) by (nonlinear_arith)
        requires
            d >= 1,
            hx >= 0,
            hy >= 0,
            bc >= hx + hy + 1,
    ;
}

/// The corner case of the circle-rectangle test: a circle touching past
/// a corner still keeps its center strictly within the summed bounding
/// radii.
#[verifier::rlimit(100)]
proof fn lemma_corner_dist(hx: int, hy: int, r: int, ax: int, ay: int, d: int, bc: int)
    requires
        d >= 1,
        hx >= 1,
        hy >= 1,
        r >= 1,
        bc >= hx + hy + 1 + r,
        ax > d * hx,
        ay > d * hy,
        (ax - d * hx) * (ax - d * hx) + (ay - d * hy) * (ay - d * hy) < (d * r) * (d * r),
    ensures
        ax * ax + ay * ay < (d * bc) * (d * bc),
{
    let u = ax - d * hx;
    let v = ay - d * hy;
    assert(u < d * r && v < d * r) by (nonlinear_arith)
        requires
            u > 0,
            v > 0,
            d * r > 0,
            u * u + v * v < (d * r) * (d * r),
    ;
    assert(d * r > 0) by (nonlinear_arith)
        requires
            d >= 1,
            r >= 1,
    ;
    let xx = d * hx;
    let yy = d * hy;
    let rr = d * r;
    assert(xx >= 1 && yy >= 1 && rr >= 1) by (nonlinear_arith)
        requires
            d >= 1,
            hx >= 1,
            hy >= 1,
            r >= 1,
            xx == d * hx,
            yy == d * hy,
            rr == d * r,
    ;
    assert(d * (hx + hy + r) == xx + yy + rr) by (nonlinear_arith)
        requires
            xx == d * hx,
            yy == d * hy,
            rr == d * r,
    ;
    assert((xx + u) * (xx + u) + (yy + v) * (yy + v) < (xx + yy + rr) * (xx + yy + rr))
        by (nonlinear_arith)
        requires
            xx >= 1,
            yy >= 1,
            rr >= 1,
            0 < u < rr,
            0 < v < rr,
            u * u + v * v < rr * rr,
    ;
    assert(ax * ax + ay * ay < (d * (hx + hy + r)) * (d * (hx + hy + r)));
    assert((d * (hx + hy + r)) * (d * (hx + hy + r)) <= (d * bc) * (d * bc)) by (nonlinear_arith)
        requires
            d >= 1,
            hx + hy + r >= 0,
            bc >= hx + hy + r,
    ;
}

/// Under a unit rotation, a rectangle's rotated extents are bounded by
/// its half-extent sum, componentwise and in the square norm.
#[verifier::rlimit(100)]
proof fn lemma_extent_bound(hx: int, hy: int, c: int, s: int)
    requires
        hx >= 0,
        hy >= 0,
        c * c + s * s == SCALE * SCALE,
    ensures
        rect_extent_x(hx, hy, c, s) <= (hx + hy) * SCALE,
        rect_extent_y(hx, hy, c, s) <= (hx + hy) * SCALE,
        rect_extent_x(hx, hy, c, s) * rect_extent_x(hx, hy, c, s) + rect_extent_y(hx, hy, c, s)
            * rect_extent_y(hx, hy, c, s) <= ((hx + hy) * SCALE) * ((hx + hy) * SCALE),
{
    let sc = SCALE as int;
    assert(fx::abs_spec(c) <= sc && fx::abs_spec(s) <= sc) by (nonlinear_arith)
        requires
            c * c + s * s == sc * sc,
            sc == 1000,
    ;
    assert(fx::abs_spec(hx * c - hy * s) <= (hx + hy) * sc && fx::abs_spec(hx * c + hy * s) <= (hx
        + hy) * sc && fx::abs_spec(hx * s + hy * c) <= (hx + hy) * sc && fx::abs_spec(
        hx * s - hy * c,
    ) <= (hx + hy) * sc) by (nonlinear_arith)
        requires
            hx >= 0,
            hy >= 0,
            fx::abs_spec(c) <= sc,
            fx::abs_spec(s) <= sc,
    ;
    let p = (hx * hx) * (c * c) + (hy * hy) * (s * s);
    let q = (hx * hx) * (s * s) + (hy * hy) * (c * c);
    let w = (hx * hy) * (c * s);
    lemma_sq_diff(hx * c, hy * s);
    lemma_sq_sum(hx * c, hy * s);
    lemma_sq_sum(hx * s, hy * c);
    lemma_sq_diff(hx * s, hy * c);
    lemma_sq_expand(hx, c);
    lemma_sq_expand(hy, s);
    lemma_sq_expand(hx, s);
    lemma_sq_expand(hy, c);
    assert((hx * c) * (hy * s) == (hx * hy) * (c * s)) by (nonlinear_arith);
    assert((hx * s) * (hy * c) == (hx * hy) * (c * s)) by (nonlinear_arith);
    assert((hx * c - hy * s) * (hx * c - hy * s) == p - 2 * w);
    assert((hx * c + hy * s) * (hx * c + hy * s) == p + 2 * w);
    assert((hx * s + hy * c) * (hx * s + hy * c) == q + 2 * w);
    assert((hx * s - hy * c) * (hx * s - hy * c) == q - 2 * w);
    let ex = rect_extent_x(hx, hy, c, s);
    let ey = rect_extent_y(hx, hy, c, s);
    assert(ex * ex <= p + 2 * fx::abs_spec(w) && ey * ey <= q + 2 * fx::abs_spec(w))
        by (nonlinear_arith)
        requires
            ex == max_spec(fx::abs_spec(hx * c - hy * s), fx::abs_spec(hx * c + hy * s)),
            ey == max_spec(fx::abs_spec(hx * s + hy * c), fx::abs_spec(hx * s - hy * c)),
            (hx * c - hy * s) * (hx * c - hy * s) == p - 2 * w,
            (hx * c + hy * s) * (hx * c + hy * s) == p + 2 * w,
            (hx * s + hy * c) * (hx * s + hy * c) == q + 2 * w,
            (hx * s - hy * c) * (hx * s - hy * c) == q - 2 * w,
    ;
    assert(2 * fx::abs_spec(c * s) <= sc * sc) by (nonlinear_arith)
        requires
            c * c + s * s == sc * sc,
    ;
    assert(2 * fx::abs_spec(w) <= hx * hy * (sc * sc)) by (nonlinear_arith)
        requires
            w == (hx * hy) * (c * s),
            hx >= 0,
            hy >= 0,
            2 * fx::abs_spec(c * s) <= sc * sc,
    ;
    assert(p + q == (hx * hx + hy * hy) * (sc * sc)) by (nonlinear_arith)
        requires
            p == (hx * hx) * (c * c) + (hy * hy) * (s * s),
            q == (hx * hx) * (s * s) + (hy * hy) * (c * c),
            c * c + s * s == sc * sc,
    ;
    assert(ex * ex + ey * ey <= ((hx + hy) * sc) * ((hx + hy) * sc)) by (nonlinear_arith)
        requires
            ex * ex <= p + 2 * fx::abs_spec(w),
            ey * ey <= q + 2 * fx::abs_spec(w),
            p + q == (hx * hx + hy * hy) * (sc * sc),
            2 * fx::abs_spec(w) <= hx * hy * (sc * sc),
            hx >= 0,
            hy >= 0,
            sc == 1000,
    ;
}

/// One direction of the separating-axis test pins the center distance
/// under the summed bounding radii.
#[verifier::rlimit(100)]
proof fn lemma_rect_rect_dist(
    hax: int,
    hay: int,
    hbx: int,
    hby: int,
    tx: int,
    ty: int,
    c: int,
    s: int,
    d: int,
)
    requires
        d >= 1,
        hax >= 1,
        hay >= 1,
        hbx >= 1,
        hby >= 1,
        c * c + s * s == SCALE * SCALE,
        rect_rect_one_sided(hax, hay, hbx, hby, tx, ty, c, s, d),
    ensures
        circle_circle_colliding(hax + hay + 1, hbx + hby + 1, tx, ty, d),
{
    let sc = SCALE as int;
    let ex = rect_extent_x(hbx, hby, c, s);
    let ey = rect_extent_y(hbx, hby, c, s);
    let w = hbx + hby;
    lemma_extent_bound(hbx as int, hby as int, c, s);
    assert(ex >= 0 && ey >= 0);
    lemma_sq_le(tx * sc, d * (hax * sc + ex));
    lemma_sq_le(ty * sc, d * (hay * sc + ey));
    assert(fx::abs_spec(tx * sc) == fx::abs_spec(tx) * sc && fx::abs_spec(ty * sc)
        == fx::abs_spec(ty) * sc) by (nonlinear_arith)
        requires
            sc == 1000,
    ;
    assert((hax * sc + ex) * (hax * sc + ex) + (hay * sc + ey) * (hay * sc + ey) <= ((hax + hay
        + w) * sc) * ((hax + hay + w) * sc)) by (nonlinear_arith)
        requires
            hax >= 1,
            hay >= 1,
            w >= 2,
            ex >= 0,
            ey >= 0,
            ex <= w * sc,
            ey <= w * sc,
            ex * ex + ey * ey <= (w * sc) * (w * sc),
            sc == 1000,
    ;
    // Square both per-axis inequalities and sum them.
    assert((tx * sc) * (tx * sc) + (ty * sc) * (ty * sc) <= (d * (hax * sc + ex)) * (d * (hax * sc
        + ex)) + (d * (hay * sc + ey)) * (d * (hay * sc + ey)));
    assert((d * (hax * sc + ex)) * (d * (hax * sc + ex)) + (d * (hay * sc + ey)) * (d * (hay * sc
        + ey)) <= (d * d) * (((hax + hay + w) * sc) * ((hax + hay + w) * sc))) by (nonlinear_arith)
        requires
            d >= 1,
            (hax * sc + ex) * (hax * sc + ex) + (hay * sc + ey) * (hay * sc + ey) <= ((hax + hay
                + w) * sc) * ((hax + hay + w) * sc),
    ;
    assert((tx * sc) * (tx * sc) + (ty * sc) * (ty * sc) == (sc * sc) * (tx * tx + ty * ty))
        by (nonlinear_arith);
    assert((d * d) * (((hax + hay + w) * sc) * ((hax + hay + w) * sc)) == (sc * sc) * ((d * (hax
        + hay + w)) * (d * (hax + hay + w)))) by (nonlinear_arith);
    assert(tx * tx + ty * ty <= (d * (hax + hay + w)) * (d * (hax + hay + w))) by {
        lemma_pos_mul_le(sc * sc, tx * tx + ty * ty, (d * (hax + hay + w)) * (d * (hax + hay
            + w)));
        assert(sc * sc > 0) by (nonlinear_arith)
            requires
                sc == 1000,
        ;
    };
    assert((d * (hax + hay + w)) * (d * (hax + hay + w)) < (d * ((hax + hay + 1) + (hbx + hby
        + 1))) * (d * ((hax + hay + 1) + (hbx + hby + 1)))) by (nonlinear_arith)
        requires
            d >= 1,
            hax + hay + w >= 0,
            w == hbx + hby,
    ;
}

/// The broad-phase test: whether the two shapes' bounding circles
/// overlap under the given relative pose.
pub fn bounding_circles_overlap(a: &Shape, b: &Shape, offset: Pose) -> (r: bool)
    requires
        shape_wf(*a),
        shape_wf(*b),
        pose_wf(offset),
    ensures
        r == circle_circle_colliding(
            bounding_radius_spec(*a),
            bounding_radius_spec(*b),
            offset.tx as int,
            offset.ty as int,
            1,
        ),
{
    let ra: i64 = a.bounding_circle();
    let rb: i64 = b.bounding_circle();
    proof {
        lemma_mul_d1(ra as int + rb as int, offset.tx as int, offset.ty as int);
    }
    circle_circle_exec(ra, rb, offset.tx as i128, offset.ty as i128, 1)
}

/// The bounding circles are a conservative superset of the exact test: a
/// colliding pair always passes the bounding-circle test, so any pair
/// failing it is guaranteed to fail the exact test and may be culled.
#[verifier::rlimit(100)]
pub proof fn lemma_bounding_circle_conservative(
    a: Shape,
    b: Shape,
    tx: int,
    ty: int,
    c: int,
    s: int,
    d: int,
)
    requires
        shape_wf(a),
        shape_wf(b),
        d >= 1,
        c * c + s * s == SCALE * SCALE,
        colliding(a, b, tx, ty, c, s, d),
    ensures
        circle_circle_colliding(bounding_radius_spec(a), bounding_radius_spec(b), tx, ty, d),
{
    let sc = SCALE as int;
    let itx = inv_tx(tx, ty, c, s);
    let ity = inv_ty(tx, ty, c, s);
    lemma_inv_norm(tx, ty, c, s);
    assert(d * sc >= 1) by (nonlinear_arith)
        requires
            d >= 1,
            sc == 1000,
    ;
    match (a, b) {
        (Shape::Point, Shape::Point) => {},
        (Shape::Point, Shape::Circle { radius }) => {
            assert(d * (0 + radius) == d * radius) by (nonlinear_arith);
        },
        (Shape::Circle { radius }, Shape::Point) => {
            assert(d * (radius + 0) == d * radius) by (nonlinear_arith);
        },
        (Shape::Circle { radius: ra }, Shape::Circle { radius: rb }) => {},
        (Shape::Rectangle { half_size }, Shape::Point) => {
            lemma_box_dist(
                half_size.x as int,
                half_size.y as int,
                tx,
                ty,
                d,
                half_size.x + half_size.y + 1,
            );
        },
        (Shape::Point, Shape::Rectangle { half_size }) => {
            lemma_box_dist(
                half_size.x as int,
                half_size.y as int,
                itx,
                ity,
                d * sc,
                half_size.x + half_size.y + 1,
            );
            lemma_scaled_distance_cancel(tx, ty, itx, ity, d, half_size.x + half_size.y + 1);
        },
        (Shape::Rectangle { half_size }, Shape::Circle { radius }) => {
            lemma_rect_circle_dist(
                half_size.x as int,
                half_size.y as int,
                radius as int,
                tx,
                ty,
                d,
            );
        },
        (Shape::Circle { radius }, Shape::Rectangle { half_size }) => {
            lemma_rect_circle_dist(
                half_size.x as int,
                half_size.y as int,
                radius as int,
                itx,
                ity,
                d * sc,
            );
            lemma_scaled_distance_cancel(
                tx,
                ty,
                itx,
                ity,
                d,
                radius + (half_size.x + half_size.y + 1),
            );
        },
        (Shape::Rectangle { half_size: ha }, Shape::Rectangle { half_size: hb }) => {
            lemma_rect_rect_dist(
                ha.x as int,
                ha.y as int,
                hb.x as int,
                hb.y as int,
                tx,
                ty,
                c,
                s,
                d,
            );
        },
    }
}

/// A colliding circle-rectangle pair keeps its centers within the summed
/// bounding radii.
proof fn lemma_rect_circle_dist(hx: int, hy: int, r: int, tx: int, ty: int, d: int)
    requires
        d >= 1,
        hx >= 1,
        hy >= 1,
        r >= 1,
        rect_circle_colliding(hx, hy, r, tx, ty, d),
    ensures
        circle_circle_colliding(hx + hy + 1, r, tx, ty, d),
        circle_circle_colliding(r, hx + hy + 1, tx, ty, d),
{
    let ax = fx::abs_spec(tx);
    let ay = fx::abs_spec(ty);
    if ay <= d * hy {
        lemma_box_dist(hx + r, hy, tx, ty, d, (hx + hy + 1) + r);
    } else if ax <= d * hx {
        lemma_box_dist(hx, hy + r, tx, ty, d, (hx + hy + 1) + r);
    } else {
        lemma_corner_dist(hx, hy, r, ax, ay, d, (hx + hy + 1) + r);
        assert(tx * tx == ax * ax && ty * ty == ay * ay) by (nonlinear_arith)
            requires
                ax == fx::abs_spec(tx),
                ay == fx::abs_spec(ty),
        ;
    }
    assert(d * ((hx + hy + 1) + r) == d * (r + (hx + hy + 1))) by (nonlinear_arith);
}

/// A distance bound on the inverted numerators cancels back to the
/// plain translation.
proof fn lemma_scaled_distance_cancel(tx: int, ty: int, itx: int, ity: int, d: int, bc: int)
    requires
        itx * itx + ity * ity == (SCALE * SCALE) * (tx * tx + ty * ty),
        itx * itx + ity * ity < ((d * SCALE) * bc) * ((d * SCALE) * bc),
    ensures
        tx * tx + ty * ty < (d * bc) * (d * bc),
{
    let sc = SCALE as int;
    assert(((d * sc) * bc) * ((d * sc) * bc) == (sc * sc) * ((d * bc) * (d * bc)))
        by (nonlinear_arith);
    lemma_pos_mul_lt(sc * sc, tx * tx + ty * ty, (d * bc) * (d * bc));
    assert(sc * sc > 0) by (nonlinear_arith)
        requires
            sc == 1000,
    ;
}

} // verus!
