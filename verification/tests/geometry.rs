use shatterfield::fx;
use shatterfield::object::Transform;
use shatterfield::shape::Shape;
use shatterfield::space::{Pose, Rot, Vec2};

fn identity() -> Rot {
    Rot { c: 1000, s: 0 }
}

fn pose(tx: i64, ty: i64) -> Pose {
    Pose { tx, ty, rot: identity() }
}

fn pose_rot(tx: i64, ty: i64, rot: Rot) -> Pose {
    Pose { tx, ty, rot }
}

/// The exact inverse of a pose whose rotation is an exact unit point of
/// the fixed-point circle and whose components divide evenly.
fn exact_inverse(p: Pose) -> Pose {
    let c = p.rot.c;
    let s = p.rot.s;
    let nx = -(c * p.tx + s * p.ty);
    let ny = s * p.tx - c * p.ty;
    assert!(nx % 1000 == 0 && ny % 1000 == 0, "inverse is not exactly representable");
    Pose { tx: nx / 1000, ty: ny / 1000, rot: Rot { c, s: -s } }
}

#[test]
fn point_point_never_collides() {
    let offsets = [(0, 0), (1, 0), (-500, 700), (1000000, -1000000)];
    for &(x, y) in offsets.iter() {
        assert!(!Shape::Point.is_colliding(&Shape::Point, pose(x, y)));
    }
}

#[test]
fn circle_circle_strict_distance() {
    let a = Shape::Circle { radius: 500 };
    let b = Shape::Circle { radius: 500 };
    // Strictly inside the sum of radii.
    assert!(a.is_colliding(&b, pose(999, 0)));
    // Exact tangency does not count as a collision.
    assert!(!a.is_colliding(&b, pose(1000, 0)));
    assert!(!a.is_colliding(&b, pose(0, 1000)));
    // Clearly apart.
    assert!(!a.is_colliding(&b, pose(1001, 0)));
    // Diagonal: 700^2 + 700^2 = 980000 < 1000^2.
    assert!(a.is_colliding(&b, pose(700, 700)));
    // 708^2 * 2 = 1002528 > 1000^2.
    assert!(!a.is_colliding(&b, pose(708, 708)));
}

#[test]
fn rectangle_pair_against_half_width_sum() {
    let r = Shape::Rectangle { half_size: Vec2 { x: 600, y: 600 } };
    // Sum of half-widths is 1.2; an offset of 1.1 overlaps.
    assert!(r.is_colliding(&r, pose(1100, 0)));
    // An offset of 1.3 does not.
    assert!(!r.is_colliding(&r, pose(1300, 0)));
    // Touching edges count as contact for rectangles.
    assert!(r.is_colliding(&r, pose(1200, 0)));
}

#[test]
fn point_in_rectangle() {
    let r = Shape::Rectangle { half_size: Vec2 { x: 600, y: 400 } };
    assert!(r.is_colliding(&Shape::Point, pose(600, 400)));
    assert!(!r.is_colliding(&Shape::Point, pose(601, 400)));
    assert!(Shape::Point.is_colliding(&r, pose(599, 0)));
    assert!(!Shape::Point.is_colliding(&r, pose(0, 401)));
}

#[test]
fn circle_rectangle_bands_and_corner() {
    let r = Shape::Rectangle { half_size: Vec2 { x: 600, y: 400 } };
    let c = Shape::Circle { radius: 300 };
    // Side band: |y| within the rectangle, x within half + radius.
    assert!(r.is_colliding(&c, pose(900, 0)));
    assert!(!r.is_colliding(&c, pose(901, 0)));
    // Corner: reduced offset (200, 200) against radius 300.
    assert!(r.is_colliding(&c, pose(800, 600)));
    // Corner at (300, 300) from the corner: 180000 >= 90000, no contact.
    assert!(!r.is_colliding(&c, pose(900, 700)));
}

#[test]
fn collision_is_symmetric_under_exact_inverse() {
    // A 3-4-5 point of the fixed-point circle: an exact unit rotation.
    let tilted = Rot { c: 600, s: 800 };
    let shapes = [
        Shape::Point,
        Shape::Circle { radius: 500 },
        Shape::Rectangle { half_size: Vec2 { x: 600, y: 300 } },
    ];
    let offsets = [(0, 0), (1000, 0), (-700, 700), (900, -200), (2000, 2000)];
    for a in shapes.iter() {
        for b in shapes.iter() {
            for &(x, y) in offsets.iter() {
                for rot in [identity(), Rot { c: 0, s: 1000 }, tilted] {
                    let fwd = pose_rot(x, y, rot);
                    let bwd = exact_inverse(fwd);
                    assert_eq!(
                        a.is_colliding(b, fwd),
                        b.is_colliding(a, bwd),
                        "asymmetric for {:?} vs {:?} at {:?}",
                        a,
                        b,
                        fwd
                    );
                }
            }
        }
    }
}

#[test]
fn rotated_rectangle_uses_both_directions() {
    // A quarter-turn swaps the rectangle's extents.
    let wide = Shape::Rectangle { half_size: Vec2 { x: 800, y: 200 } };
    let quarter = Rot { c: 0, s: 1000 };
    // Upright vs quarter-turned at x offset 1.05: 0.8 + 0.2 = 1.0 < 1.05.
    assert!(!wide.is_colliding(&wide, pose_rot(1050, 0, quarter)));
    // The same offset with no rotation overlaps: 0.8 + 0.8 = 1.6 > 1.05.
    assert!(wide.is_colliding(&wide, pose_rot(1050, 0, identity())));
}

#[test]
fn fixed_point_helpers_round_toward_zero() {
    assert_eq!(fx::mul_fx(1500, 1500), 2250);
    assert_eq!(fx::mul_fx(-1500, 1500), -2250);
    assert_eq!(fx::mul_fx(999, 1), 0);
    assert_eq!(fx::div_fx(1000, 333), 3003);
    assert_eq!(fx::add_fx(fx::FX_LIM, fx::FX_LIM), fx::FX_LIM);
    assert_eq!(fx::sub_fx(-fx::FX_LIM, fx::FX_LIM), -fx::FX_LIM);
}

#[test]
fn integer_square_root_brackets() {
    assert_eq!(fx::isqrt_u64(0), 0);
    assert_eq!(fx::isqrt_u64(1), 1);
    assert_eq!(fx::isqrt_u64(2), 1);
    assert_eq!(fx::isqrt_u64(1000000), 1000);
    assert_eq!(fx::isqrt_u64(999999), 999);
    assert_eq!(fx::isqrt_u64(u64::MAX), 0xffff_ffff);
}

#[test]
fn exponential_decay_endpoints() {
    // No time, no movement.
    assert_eq!(fx::exp_decay(250, 1000, 20000, 0), 250);
    // The result stays between the endpoints.
    for dt in [1, 8, 100, 1000, 100000] {
        let r = fx::exp_decay(0, 1000, 20000, dt);
        assert!((0..=1000).contains(&r), "escaped range: {r}");
    }
    // Long horizons land at the target.
    assert_eq!(fx::exp_decay(0, 1000, 20000, 1000000), 1000);
}

#[test]
fn rotation_of_zero_angle_is_identity() {
    let r = shatterfield::space::rot_from_angle(0);
    assert_eq!(r, Rot { c: 1000, s: 0 });
    // A quarter turn of 1.571 fixed-point radians.
    let q = shatterfield::space::rot_from_angle(1571);
    assert_eq!(q.c, 0);
    assert_eq!(q.s, 1000);
}

#[test]
fn transform_tick_integrates_and_zero_is_noop() {
    let mut t = Transform {
        position: pose(1000, 2000),
        linear_velocity: Vec2 { x: 3000, y: -1000 },
        angular_velocity: 0,
    };
    let before = t;
    t.tick(0);
    assert_eq!(t, before);
    t.tick(500);
    assert_eq!(t.position.tx, 1000 + 1500);
    assert_eq!(t.position.ty, 2000 - 500);
    assert_eq!(t.position.rot, identity());
}

#[test]
fn deterministic_random_source() {
    let mut a = shatterfield::rng::Rng::new(42);
    let mut b = shatterfield::rng::Rng::new(42);
    for _ in 0..32 {
        let x = a.range_usize(0, 1000);
        let y = b.range_usize(0, 1000);
        assert_eq!(x, y);
        assert!(x < 1000);
    }
}
