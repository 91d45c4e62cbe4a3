//! Points on Bezier curves, by de Casteljau's construction in whole numbers.
//!
//! The parameter of a point is the fraction `step / steps`. A point on a
//! line between two points is then a numerator over `steps`, a point on a
//! quadratic curve a numerator over the square of `steps`, and a point on a
//! cubic curve a numerator over its cube.

use vstd::prelude::*;
use crate::geometry::Point;

verus! {

/// The largest coordinate for which a point between two points is computed.
pub const LERP_LIMIT: i128 = 0x1_0000_0000_0000_0000_0000_0000;

/// The largest coordinate for which a point on a quadratic curve is computed.
pub const QUAD_LIMIT: i128 = 0x1_0000_0000_0000_0000_0000;

/// The largest coordinate for which a point on a cubic curve is computed.
pub const CUBIC_LIMIT: i128 = 0x1_0000_0000_0000_0000;

/// Whether both coordinates of `p` lie between `-limit` and `limit`.
pub open spec fn within(p: Point, limit: int) -> bool {
    -limit <= p.x <= limit && -limit <= p.y <= limit
}

/// The point at `step / steps` of the way from `a` to `b`, times `steps`.
pub open spec fn lerp_at(a: int, b: int, step: int, steps: int) -> int {
    (steps - step) * a + step * b
}

/// The point at the parameter `step / steps` on the quadratic Bezier curve
/// with the control points `p0`, `p1` and `p2`, times the square of `steps`.
pub open spec fn quad_at(p0: int, p1: int, p2: int, step: int, steps: int) -> int {
    (steps - step) * (steps - step) * p0 + 2 * step * (steps - step) * p1 + step * step * p2
}

/// The point at the parameter `step / steps` on the cubic Bezier curve with
/// the control points `p0` to `p3`, times the cube of `steps`.
pub open spec fn cubic_at(p0: int, p1: int, p2: int, p3: int, step: int, steps: int) -> int {
    (steps - step) * (steps - step) * (steps - step) * p0 + 3 * step * (steps - step) * (steps
        - step) * p1 + 3 * step * step * (steps - step) * p2 + step * step * step * p3
}

/// A point between two values lies between them.
pub proof fn lemma_lerp_between(a: int, b: int, step: int, steps: int, low: int, high: int)
    requires
        0 <= step <= steps,
        low <= a <= high,
        low <= b <= high,
    ensures
        steps * low <= lerp_at(a, b, step, steps) <= steps * high,
{
    assert((steps - step) * low <= (steps - step) * a <= (steps - step) * high)
        by (nonlinear_arith)
        requires
            0 <= steps - step,
            low <= a <= high,
    ;
    assert(step * low <= step * b <= step * high) by (nonlinear_arith)
        requires
            0 <= step,
            low <= b <= high,
    ;
    assert((steps - step) * low + step * low == steps * low) by (nonlinear_arith);
    assert((steps - step) * high + step * high == steps * high) by (nonlinear_arith);
}

/// Two steps of de Casteljau's construction give the quadratic curve.
pub proof fn lemma_quad_by_lerp(p0: int, p1: int, p2: int, step: int, steps: int)
    ensures
        lerp_at(lerp_at(p0, p1, step, steps), lerp_at(p1, p2, step, steps), step, steps)
            == quad_at(p0, p1, p2, step, steps),
{
    let u = steps - step;
    let s = step;
    assert(u * (u * p0 + s * p1) == u * u * p0 + s * u * p1) by (nonlinear_arith);
    assert(s * (u * p1 + s * p2) == s * u * p1 + s * s * p2) by (nonlinear_arith);
    assert(2 * s * u * p1 == s * u * p1 + s * u * p1) by (nonlinear_arith);
}

/// A step of de Casteljau's construction between two quadratic curves gives
/// the cubic curve.
pub proof fn lemma_cubic_by_quad(p0: int, p1: int, p2: int, p3: int, step: int, steps: int)
    ensures
        lerp_at(quad_at(p0, p1, p2, step, steps), quad_at(p1, p2, p3, step, steps), step, steps)
            == cubic_at(p0, p1, p2, p3, step, steps),
{
    let u = steps - step;
    let s = step;
    let a0 = u * u * p0;
    let a1 = 2 * s * u * p1;
    let a2 = s * s * p2;
    let b1 = u * u * p1;
    let b2 = 2 * s * u * p2;
    let b3 = s * s * p3;
    assert(u * (a0 + a1 + a2) == u * a0 + u * a1 + u * a2) by (nonlinear_arith);
    assert(s * (b1 + b2 + b3) == s * b1 + s * b2 + s * b3) by (nonlinear_arith);
    assert(u * a0 == u * u * u * p0) by (nonlinear_arith)
        requires
            a0 == u * u * p0,
    ;
    assert(s * b3 == s * s * s * p3) by (nonlinear_arith)
        requires
            b3 == s * s * p3,
    ;
    assert(u * a1 + s * b1 == 3 * s * u * u * p1) by (nonlinear_arith)
        requires
            a1 == 2 * s * u * p1,
            b1 == u * u * p1,
    ;
    assert(u * a2 + s * b2 == 3 * s * s * u * p2) by (nonlinear_arith)
        requires
            a2 == s * s * p2,
            b2 == 2 * s * u * p2,
    ;
}

/// A point on a quadratic curve lies between the least and the greatest of
/// its control points.
pub proof fn lemma_quad_between(
    p0: int,
    p1: int,
    p2: int,
    step: int,
    steps: int,
    low: int,
    high: int,
)
    requires
        0 <= step <= steps,
        low <= p0 <= high,
        low <= p1 <= high,
        low <= p2 <= high,
    ensures
        steps * steps * low <= quad_at(p0, p1, p2, step, steps) <= steps * steps * high,
{
    lemma_quad_by_lerp(p0, p1, p2, step, steps);
    lemma_lerp_between(p0, p1, step, steps, low, high);
    lemma_lerp_between(p1, p2, step, steps, low, high);
    lemma_lerp_between(
        lerp_at(p0, p1, step, steps),
        lerp_at(p1, p2, step, steps),
        step,
        steps,
        steps * low,
        steps * high,
    );
    assert(steps * (steps * low) == steps * steps * low) by (nonlinear_arith);
    assert(steps * (steps * high) == steps * steps * high) by (nonlinear_arith);
}

/// A point on a cubic curve lies between the least and the greatest of its
/// control points.
pub proof fn lemma_cubic_between(
    p0: int,
    p1: int,
    p2: int,
    p3: int,
    step: int,
    steps: int,
    low: int,
    high: int,
)
    requires
        0 <= step <= steps,
        low <= p0 <= high,
        low <= p1 <= high,
        low <= p2 <= high,
        low <= p3 <= high,
    ensures
        steps * steps * steps * low <= cubic_at(p0, p1, p2, p3, step, steps) <= steps * steps
            * steps * high,
{
    lemma_cubic_by_quad(p0, p1, p2, p3, step, steps);
    lemma_quad_between(p0, p1, p2, step, steps, low, high);
    lemma_quad_between(p1, p2, p3, step, steps, low, high);
    lemma_lerp_between(
        quad_at(p0, p1, p2, step, steps),
        quad_at(p1, p2, p3, step, steps),
        step,
        steps,
        steps * steps * low,
        steps * steps * high,
    );
    assert(steps * (steps * steps * low) == steps * steps * steps * low) by (nonlinear_arith);
    assert(steps * (steps * steps * high) == steps * steps * steps * high) by (nonlinear_arith);
}

/// At the last step a quadratic curve has reached its end point.
pub proof fn lemma_quad_end(p0: int, p1: int, p2: int, steps: int)
    ensures
        quad_at(p0, p1, p2, steps, steps) == steps * steps * p2,
{
    assert((steps - steps) * (steps - steps) * p0 + 2 * steps * (steps - steps) * p1 + steps
        * steps * p2 == steps * steps * p2) by (nonlinear_arith);
}

/// At the last step a cubic curve has reached its end point.
pub proof fn lemma_cubic_end(p0: int, p1: int, p2: int, p3: int, steps: int)
    ensures
        cubic_at(p0, p1, p2, p3, steps, steps) == steps * steps * steps * p3,
{
    let u = steps - steps;
    assert(u * u * u * p0 + 3 * steps * u * u * p1 + 3 * steps * steps * u * p2 + steps * steps
        * steps * p3 == steps * steps * steps * p3) by (nonlinear_arith)
        requires
            u == 0,
    ;
}

/// One coordinate of a point between two points.
fn lerp(a: i128, b: i128, step: u16, steps: u16) -> (r: i128)
    requires
        step <= steps,
        -LERP_LIMIT <= a <= LERP_LIMIT,
        -LERP_LIMIT <= b <= LERP_LIMIT,
    ensures
        r == lerp_at(a as int, b as int, step as int, steps as int),
{
    let rest: i128 = (steps - step) as i128;
    let done: i128 = step as i128;
    assert(-0x1_0000 * LERP_LIMIT <= rest * a <= 0x1_0000 * LERP_LIMIT) by (nonlinear_arith)
        requires
            0 <= rest <= 0xffff,
            -LERP_LIMIT <= a <= LERP_LIMIT,
    ;
    assert(-0x1_0000 * LERP_LIMIT <= done * b <= 0x1_0000 * LERP_LIMIT) by (nonlinear_arith)
        requires
            0 <= done <= 0xffff,
            -LERP_LIMIT <= b <= LERP_LIMIT,
    ;
    rest * a + done * b
}

/// The point at `step / steps` of the way from `a` to `b`, as a numerator
/// over `steps`.
pub fn lerp_points(a: Point, b: Point, step: u16, steps: u16) -> (r: Point)
    requires
        step <= steps,
        within(a, LERP_LIMIT as int),
        within(b, LERP_LIMIT as int),
    ensures
        r.x == lerp_at(a.x as int, b.x as int, step as int, steps as int),
        r.y == lerp_at(a.y as int, b.y as int, step as int, steps as int),
{
    Point { x: lerp(a.x, b.x, step, steps), y: lerp(a.y, b.y, step, steps) }
}

/// The point at the parameter `step / steps` on the quadratic Bezier curve
/// with the control points `p0`, `p1` and `p2`, as a numerator over the
/// square of `steps`. It is found by two steps of de Casteljau's
/// construction: a point between `p0` and `p1`, one between `p1` and `p2`,
/// and a point between those two.
pub fn point_on_quad(p0: Point, p1: Point, p2: Point, step: u16, steps: u16) -> (r: Point)
    requires
        step <= steps,
        within(p0, QUAD_LIMIT as int),
        within(p1, QUAD_LIMIT as int),
        within(p2, QUAD_LIMIT as int),
    ensures
        r.x == quad_at(p0.x as int, p1.x as int, p2.x as int, step as int, steps as int),
        r.y == quad_at(p0.y as int, p1.y as int, p2.y as int, step as int, steps as int),
{
    let a = lerp_points(p0, p1, step, steps);
    let b = lerp_points(p1, p2, step, steps);
    proof {
        let l = QUAD_LIMIT as int;
        let k = step as int;
        let n = steps as int;
        lemma_lerp_between(p0.x as int, p1.x as int, k, n, -l, l);
        lemma_lerp_between(p0.y as int, p1.y as int, k, n, -l, l);
        lemma_lerp_between(p1.x as int, p2.x as int, k, n, -l, l);
        lemma_lerp_between(p1.y as int, p2.y as int, k, n, -l, l);
        assert(n * l <= LERP_LIMIT && n * (-l) >= -LERP_LIMIT) by (nonlinear_arith)
            requires
                0 <= n <= 0xffff,
                l == QUAD_LIMIT,
        ;
        lemma_quad_by_lerp(p0.x as int, p1.x as int, p2.x as int, k, n);
        lemma_quad_by_lerp(p0.y as int, p1.y as int, p2.y as int, k, n);
    }
    lerp_points(a, b, step, steps)
}

/// The point at the parameter `step / steps` on the cubic Bezier curve with
/// the control points `p0` to `p3`, as a numerator over the cube of `steps`.
/// It is found by de Casteljau's construction: the point on the quadratic
/// curve over `p0`, `p1` and `p2`, the one on the curve over `p1`, `p2` and
/// `p3`, and a point between those two.
pub fn point_on_cubic(p0: Point, p1: Point, p2: Point, p3: Point, step: u16, steps: u16) -> (r:
    Point)
    requires
        step <= steps,
        within(p0, CUBIC_LIMIT as int),
        within(p1, CUBIC_LIMIT as int),
        within(p2, CUBIC_LIMIT as int),
        within(p3, CUBIC_LIMIT as int),
    ensures
        r.x == cubic_at(
            p0.x as int,
            p1.x as int,
            p2.x as int,
            p3.x as int,
            step as int,
            steps as int,
        ),
        r.y == cubic_at(
            p0.y as int,
            p1.y as int,
            p2.y as int,
            p3.y as int,
            step as int,
            steps as int,
        ),
{
    let a = point_on_quad(p0, p1, p2, step, steps);
    let b = point_on_quad(p1, p2, p3, step, steps);
    proof {
        let l = CUBIC_LIMIT as int;
        let k = step as int;
        let n = steps as int;
        lemma_quad_between(p0.x as int, p1.x as int, p2.x as int, k, n, -l, l);
        lemma_quad_between(p0.y as int, p1.y as int, p2.y as int, k, n, -l, l);
        lemma_quad_between(p1.x as int, p2.x as int, p3.x as int, k, n, -l, l);
        lemma_quad_between(p1.y as int, p2.y as int, p3.y as int, k, n, -l, l);
        assert(n * n * l <= LERP_LIMIT && n * n * (-l) >= -LERP_LIMIT) by (nonlinear_arith)
            requires
                0 <= n <= 0xffff,
                l == CUBIC_LIMIT,
        ;
        lemma_cubic_by_quad(p0.x as int, p1.x as int, p2.x as int, p3.x as int, k, n);
        lemma_cubic_by_quad(p0.y as int, p1.y as int, p2.y as int, p3.y as int, k, n);
    }
    lerp_points(a, b, step, steps)
}

} // verus!
