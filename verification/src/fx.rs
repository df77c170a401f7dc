use vstd::prelude::*;

verus! {

/// Fixed-point fraction steps per world unit: every world-space length,
/// speed, time and rotation component is an integer count of 1/1000.
pub const SCALE: i64 = 1000;

/// Magnitude cap for world-space quantities. Arithmetic saturates here, so
/// products of two in-range values always fit in an `i64`.
pub const FX_LIM: i64 = 1_000_000_000;

/// A world-space quantity within the saturation bounds.
pub open spec fn in_range(x: i64) -> bool {
    -FX_LIM <= x && x <= FX_LIM
}

pub open spec fn abs_spec(x: int) -> int {
    if x >= 0 {
        x
    } else {
        -x
    }
}

/// Quotient rounded toward zero (the library's fixed-point rounding rule).
pub open spec fn div_trunc_spec(p: int, d: int) -> int {
    if p >= 0 {
        p / d
    } else {
        -((-p) / d)
    }
}

pub open spec fn clamp_spec(x: int) -> int {
    if x < -FX_LIM {
        -FX_LIM as int
    } else if x > FX_LIM {
        FX_LIM as int
    } else {
        x
    }
}

/// Saturating fixed-point sum.
pub open spec fn add_fx_spec(a: int, b: int) -> int {
    clamp_spec(a + b)
}

/// Saturating fixed-point product: a*b/SCALE rounded toward zero.
pub open spec fn mul_fx_spec(a: int, b: int) -> int {
    clamp_spec(div_trunc_spec(a * b, SCALE as int))
}

/// Saturating fixed-point quotient: a*SCALE/b rounded toward zero.
pub open spec fn div_fx_spec(a: int, b: int) -> int {
    clamp_spec(div_trunc_spec(a * SCALE, b))
}

pub fn abs_i64(x: i64) -> (r: i64)
    requires
        x != i64::MIN,
    ensures
        r == abs_spec(x as int),
{
    if x < 0 {
        -x
    } else {
        x
    }
}

/// Truncating division of a bounded numerator by a positive divisor.
pub fn div_trunc(p: i64, d: i64) -> (r: i64)
    requires
        d > 0,
        p != i64::MIN,
    ensures
        r == div_trunc_spec(p as int, d as int),
        abs_spec(r as int) <= abs_spec(p as int),
{
    if p >= 0 {
        let q: u64 = (p as u64) / (d as u64);
        assert(q == p as int / d as int) by {
            assert((p as u64) as int == p as int);
        };
        q as i64
    } else {
        let n: i64 = -p;
        let q: u64 = (n as u64) / (d as u64);
        assert(q == n as int / d as int) by {
            assert((n as u64) as int == n as int);
        };
        assert(q <= n as u64);
        -(q as i64)
    }
}

pub fn clamp_fx(x: i64) -> (r: i64)
    ensures
        r == clamp_spec(x as int),
        in_range(r),
{
    if x < -FX_LIM {
        -FX_LIM
    } else if x > FX_LIM {
        FX_LIM
    } else {
        x
    }
}

pub fn add_fx(a: i64, b: i64) -> (r: i64)
    requires
        in_range(a),
        in_range(b),
    ensures
        r == add_fx_spec(a as int, b as int),
        in_range(r),
{
    clamp_fx(a + b)
}

pub fn sub_fx(a: i64, b: i64) -> (r: i64)
    requires
        in_range(a),
        in_range(b),
    ensures
        r == add_fx_spec(a as int, -b as int),
        in_range(r),
{
    clamp_fx(a - b)
}

pub fn mul_fx(a: i64, b: i64) -> (r: i64)
    requires
        in_range(a),
        in_range(b),
    ensures
        r == mul_fx_spec(a as int, b as int),
        in_range(r),
{
    assert(-0x7fff_ffff_ffff_ffff <= a * b <= 0x7fff_ffff_ffff_ffff) by (nonlinear_arith)
        requires
            in_range(a),
            in_range(b),
    ;
    let p: i64 = a * b;
    clamp_fx(div_trunc(p, SCALE))
}

pub fn div_fx(a: i64, b: i64) -> (r: i64)
    requires
        in_range(a),
        in_range(b),
        b > 0,
    ensures
        r == div_fx_spec(a as int, b as int),
        in_range(r),
{
    assert(-0x7fff_ffff_ffff_ffff <= a * SCALE <= 0x7fff_ffff_ffff_ffff) by (nonlinear_arith)
        requires
            in_range(a),
    ;
    let p: i64 = a * SCALE;
    clamp_fx(div_trunc(p, b))
}

/// Clamp to the unit interval [0, SCALE], for ratios and progress values.
pub open spec fn clamp_unit_spec(x: int) -> int {
    if x < 0 {
        0
    } else if x > SCALE {
        SCALE as int
    } else {
        x
    }
}

pub fn clamp_unit(x: i64) -> (r: i64)
    ensures
        r == clamp_unit_spec(x as int),
        0 <= r <= SCALE,
{
    if x < 0 {
        0
    } else if x > SCALE {
        SCALE
    } else {
        x
    }
}

/// The integer square root: the greatest r with r * r <= n, and 0 for a
/// negative argument.
pub open spec fn isqrt_spec(n: int) -> int
    decreases n,
{
    if n < 1 {
        0
    } else {
        let p = isqrt_spec(n - 1);
        if (p + 1) * (p + 1) <= n {
            p + 1
        } else {
            p
        }
    }
}

/// The spec square root brackets its argument.
pub proof fn lemma_isqrt_bracket(n: int)
    requires
        n >= 0,
    ensures
        0 <= isqrt_spec(n),
        isqrt_spec(n) * isqrt_spec(n) <= n,
        n < (isqrt_spec(n) + 1) * (isqrt_spec(n) + 1),
    decreases n,
{
    if n == 0 {
        assert(isqrt_spec(0) == 0);
        assert((0 + 1) * (0 + 1) == 1) by (nonlinear_arith);
    } else {
        lemma_isqrt_bracket(n - 1);
        let p = isqrt_spec(n - 1);
        if (p + 1) * (p + 1) <= n {
            assert(n - 1 < (p + 1) * (p + 1));
            assert(n < (p + 2) * (p + 2)) by (nonlinear_arith)
                requires
                    0 <= p,
                    n <= (p + 1) * (p + 1),
            ;
        }
    }
}

/// Any bracketing root is the spec square root.
pub proof fn lemma_isqrt_unique(n: int, r: int)
    requires
        0 <= r,
        r * r <= n,
        n < (r + 1) * (r + 1),
    ensures
        r == isqrt_spec(n),
{
    assert(n >= 0) by (nonlinear_arith)
        requires
            0 <= r,
            r * r <= n,
    ;
    lemma_isqrt_bracket(n);
    let q = isqrt_spec(n);
    if r < q {
        assert((r + 1) * (r + 1) <= q * q) by (nonlinear_arith)
            requires
                0 <= r,
                r + 1 <= q,
        ;
        assert(false);
    }
    if q < r {
        assert((q + 1) * (q + 1) <= r * r) by (nonlinear_arith)
            requires
                0 <= q,
                q + 1 <= r,
        ;
        assert(false);
    }
}

/// Integer square root: the greatest `r` with `r * r <= n`.
pub fn isqrt_u64(n: u64) -> (r: u64)
    ensures
        r * r <= n,
        n < (r + 1) * (r + 1),
        r == isqrt_spec(n as int),
{
    let mut lo: u64 = 0;
    let mut hi: u64 = 0x1_0000_0000;
    while lo + 1 < hi
        invariant
            lo < hi <= 0x1_0000_0000,
            lo * lo <= n,
            (n as u128) < (hi as u128) * (hi as u128),
        decreases hi - lo,
    {
        let mid: u64 = lo + (hi - lo) / 2;
        assert((mid as u128) * (mid as u128) <= 0x1_0000_0000_0000_0000u128) by (nonlinear_arith)
            requires
                mid <= 0x1_0000_0000u64,
        ;
        if (mid as u128) * (mid as u128) <= n as u128 {
            lo = mid;
        } else {
            hi = mid;
        }
    }
    assert((n as u128) < ((lo + 1) as u128) * ((lo + 1) as u128));
    proof {
        lemma_isqrt_unique(n as int, lo as int);
    }
    lo
}

/// Ages saturate at FX_LIM instead of overflowing.
pub open spec fn cap_time_spec(x: int) -> int {
    if x > FX_LIM {
        FX_LIM as int
    } else {
        x
    }
}

pub fn add_time(t: i64, dt: i64) -> (r: i64)
    requires
        0 <= t <= FX_LIM,
        0 <= dt <= FX_LIM,
    ensures
        r == cap_time_spec(t + dt),
        0 <= r <= FX_LIM,
        dt == 0 ==> r == t,
{
    if t + dt > FX_LIM {
        FX_LIM
    } else {
        t + dt
    }
}

/// Rational approximation of e^(-u) on the unit scale: exactly SCALE at
/// u == 0, decreasing toward zero as u grows.
pub open spec fn exp_neg_spec(u: int) -> int {
    (SCALE * SCALE) / (SCALE + u + mul_fx_spec(u, u) / 2)
}

pub fn exp_neg(u: i64) -> (r: i64)
    requires
        0 <= u <= FX_LIM,
    ensures
        r == exp_neg_spec(u as int),
        0 <= r <= SCALE,
        u == 0 ==> r == SCALE,
{
    let uu: i64 = mul_fx(u, u);
    let half: i64 = div_trunc(uu, 2);
    let denom: i64 = SCALE + u + half;
    assert(uu >= 0 && denom >= SCALE) by {
        assert(u as int * u as int >= 0) by (nonlinear_arith);
    };
    let q: u64 = 1000000u64 / (denom as u64);
    assert(q == 1000000int / denom as int) by {
        assert((denom as u64) as int == denom as int);
    };
    proof {
        if u == 0 {
            assert(0int * 0 == 0);
            assert(div_trunc_spec(0, 1000) == 0) by {
                assert(0int / 1000 == 0);
            };
            assert(mul_fx_spec(0, 0) == 0);
            assert(uu == 0);
            assert(half == 0) by {
                assert(0int / 2 == 0);
            };
            assert(denom == 1000);
            assert(1000000int / 1000 == 1000);
        }
    }
    assert(q <= 1000) by {
        assert(denom as int >= 1000 ==> 1000000int / denom as int <= 1000000int / 1000) by {
            vstd::arithmetic::div_mod::lemma_div_is_ordered_by_denominator(1000000, 1000, denom as int);
        };
        assert(1000000int / 1000 == 1000);
    };
    q as i64
}

/// A zero factor scales anything to exactly zero.
pub proof fn lemma_mul_fx_by_zero(a: int)
    ensures
        mul_fx_spec(a, 0) == 0,
        mul_fx_spec(0, a) == 0,
{
    assert(a * 0 == 0);
    assert(0 * a == 0);
    assert(div_trunc_spec(0, SCALE as int) == 0) by {
        assert(0int / 1000 == 0);
    };
}

/// Exponential decay over a zero-length step keeps the start value.
pub proof fn lemma_exp_decay_zero(a: int, b: int, decay: int)
    requires
        -FX_LIM <= a <= FX_LIM,
        -FX_LIM <= a - b <= FX_LIM,
    ensures
        exp_decay_spec(a, b, decay, 0) == a,
{
    lemma_mul_fx_by_zero(decay);
    assert(exp_neg_spec(0) == SCALE) by {
        assert(0int * 0 == 0);
        assert(div_trunc_spec(0, 1000) == 0) by {
            assert(0int / 1000 == 0);
        };
        assert(mul_fx_spec(0, 0) == 0);
        assert(0int / 2 == 0);
        assert(1000000int / 1000 == 1000);
    };
    let d = add_fx_spec(a, -b);
    assert(d == a - b);
    assert(mul_fx_spec(d, 1000) == d) by {
        if d >= 0 {
            vstd::arithmetic::div_mod::lemma_div_multiples_vanish(d, 1000);
            assert(d * 1000 == 1000 * d) by (nonlinear_arith);
        } else {
            vstd::arithmetic::div_mod::lemma_div_multiples_vanish(-d, 1000);
            assert(-(d * 1000) == 1000 * (-d)) by (nonlinear_arith);
        }
    };
}

/// A truncated quotient is bounded by any bound on the numerator.
pub proof fn lemma_div_trunc_bound(p: int, d: int, b: int)
    requires
        d > 0,
        b >= 0,
        abs_spec(p) <= b * d,
    ensures
        abs_spec(div_trunc_spec(p, d)) <= b,
{
    if p >= 0 {
        vstd::arithmetic::div_mod::lemma_div_is_ordered(p, b * d, d);
        assert(d * b == b * d);
        vstd::arithmetic::div_mod::lemma_div_multiples_vanish(b, d);
        vstd::arithmetic::div_mod::lemma_div_pos_is_pos(p, d);
    } else {
        vstd::arithmetic::div_mod::lemma_div_is_ordered(-p, b * d, d);
        assert(d * b == b * d);
        vstd::arithmetic::div_mod::lemma_div_multiples_vanish(b, d);
        vstd::arithmetic::div_mod::lemma_div_pos_is_pos(-p, d);
    }
}

/// Exponential approach from a toward b: b + (a - b) * e^(-decay * dt).
/// At dt == 0 this returns a unchanged.
pub open spec fn exp_decay_spec(a: int, b: int, decay: int, dt: int) -> int {
    add_fx_spec(b, mul_fx_spec(add_fx_spec(a, -b), exp_neg_spec(mul_fx_spec(decay, dt))))
}

pub fn exp_decay(a: i64, b: i64, decay: i64, dt: i64) -> (r: i64)
    requires
        in_range(a),
        in_range(b),
        0 <= decay <= FX_LIM,
        0 <= dt <= FX_LIM,
    ensures
        r == exp_decay_spec(a as int, b as int, decay as int, dt as int),
        in_range(r),
        a <= b ==> a <= r <= b,
        b <= a ==> b <= r <= a,
{
    let u: i64 = mul_fx(decay, dt);
    assert(u >= 0) by {
        assert(decay as int * dt as int >= 0) by (nonlinear_arith)
            requires
                decay >= 0,
                dt >= 0,
        ;
    };
    let e: i64 = exp_neg(u);
    let diff: i64 = sub_fx(a, b);
    let scaled: i64 = mul_fx(diff, e);
    proof {
        assert(abs_spec(diff as int * e as int) <= abs_spec(diff as int) * 1000)
            by (nonlinear_arith)
            requires
                0 <= e <= 1000,
        ;
        lemma_div_trunc_bound(diff as int * e as int, 1000, abs_spec(diff as int));
        if diff >= 0 {
            assert(diff as int * e as int >= 0) by (nonlinear_arith)
                requires
                    diff >= 0,
                    e >= 0,
            ;
        } else {
            assert(diff as int * e as int <= 0) by (nonlinear_arith)
                requires
                    diff <= 0,
                    e >= 0,
            ;
        }
    }
    add_fx(b, scaled)
}

} // verus!
