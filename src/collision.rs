use vstd::prelude::*;
use crate::math::{clamp_to, div_toward_zero, is_isqrt, isqrt, saturate, tdiv};
use crate::particle::{body_wf, Body, LIMIT};

verus! {

pub open spec fn dist_sq(a: Body, b: Body) -> int {
    (b.x - a.x) * (b.x - a.x) + (b.y - a.y) * (b.y - a.y)
}

pub open spec fn reach_sq(a: Body, b: Body) -> int {
    (a.radius + b.radius) * (a.radius + b.radius)
}

/// The two circles touch or overlap.
pub open spec fn overlapping(a: Body, b: Body) -> bool {
    dist_sq(a, b) <= reach_sq(a, b)
}

/// Twice the kinetic energy of a unit mass.
pub open spec fn energy(b: Body) -> int {
    b.vx * b.vx + b.vy * b.vy
}

/// The integer part of the square root of `n`.
pub open spec fn sqrt_floor(n: int) -> int {
    choose|r: int| is_isqrt(n, r)
}

/// Velocity of `me` once its component along `(nx, ny)` is replaced by that of `other`:
/// `v + ((w - v) . n) n / |n|²`, each component rounded toward zero and saturated.
pub open spec fn exchanged(me: Body, other: Body, nx: int, ny: int) -> (int, int) {
    let nn = nx * nx + ny * ny;
    let dvn = (other.vx - me.vx) * nx + (other.vy - me.vy) * ny;
    (
        clamp_to(me.vx + tdiv(dvn * nx, nn), LIMIT as int),
        clamp_to(me.vy + tdiv(dvn * ny, nn), LIMIT as int),
    )
}

/// Centre moved by `push` along the direction of `(nx, ny)`, whose length is `dist`.
pub open spec fn pushed(b: Body, nx: int, ny: int, push: int, dist: int) -> (int, int) {
    (
        clamp_to(b.x + tdiv(nx * push, dist), LIMIT as int),
        clamp_to(b.y + tdiv(ny * push, dist), LIMIT as int),
    )
}

/// The pair after a collision test: untouched unless the circles overlap with distinct
/// centres; then the normal velocity components are swapped and the centres pushed apart
/// along the line between them until the circles just touch.
pub open spec fn collide(a: Body, b: Body) -> (Body, Body) {
    let nx = b.x - a.x;
    let ny = b.y - a.y;
    let d2 = dist_sq(a, b);
    if d2 > reach_sq(a, b) || d2 == 0 {
        (a, b)
    } else {
        let dist = sqrt_floor(d2);
        let gap = a.radius + b.radius - dist;
        let push_a = gap / 2;
        let push_b = gap - push_a;
        let va = exchanged(a, b, nx, ny);
        let vb = exchanged(b, a, -nx, -ny);
        let pa = pushed(a, -nx, -ny, push_a, dist);
        let pb = pushed(b, nx, ny, push_b, dist);
        (
            Body { x: pa.0 as i64, y: pa.1 as i64, vx: va.0 as i64, vy: va.1 as i64, ..a },
            Body { x: pb.0 as i64, y: pb.1 as i64, vx: vb.0 as i64, vy: vb.1 as i64, ..b },
        )
    }
}

pub proof fn lemma_isqrt_exists(n: int)
    requires
        n >= 0,
    ensures
        is_isqrt(n, sqrt_floor(n)),
    decreases n,
{
    if n == 0 {
        assert(is_isqrt(0, 0));
    } else {
        lemma_isqrt_exists(n - 1);
        let r = sqrt_floor(n - 1);
        if (r + 1) * (r + 1) <= n {
            assert(n < (r + 2) * (r + 2)) by (nonlinear_arith)
                requires n - 1 < (r + 1) * (r + 1), r >= 0;
            assert(is_isqrt(n, r + 1));
        } else {
            assert(is_isqrt(n, r));
        }
    }
}

pub proof fn lemma_isqrt_unique(n: int, r: int, s: int)
    requires
        is_isqrt(n, r),
        is_isqrt(n, s),
    ensures
        r == s,
{
    if r < s {
        assert((r + 1) * (r + 1) <= s * s) by (nonlinear_arith) requires 0 <= r < s;
    } else if s < r {
        assert((s + 1) * (s + 1) <= r * r) by (nonlinear_arith) requires 0 <= s < r;
    }
}

fn exchange(me: Body, other: Body, nx: i128, ny: i128, nn: i128) -> (r: (i64, i64))
    requires
        body_wf(me),
        body_wf(other),
        -2 * LIMIT <= nx <= 2 * LIMIT,
        -2 * LIMIT <= ny <= 2 * LIMIT,
        nn == nx * nx + ny * ny,
        nn > 0,
    ensures
        r.0 as int == exchanged(me, other, nx as int, ny as int).0,
        r.1 as int == exchanged(me, other, nx as int, ny as int).1,
{
    let dvx = other.vx as i128 - me.vx as i128;
    let dvy = other.vy as i128 - me.vy as i128;
    assert(-4 * LIMIT * LIMIT <= dvx * nx <= 4 * LIMIT * LIMIT) by (nonlinear_arith)
        requires -2 * LIMIT <= dvx <= 2 * LIMIT, -2 * LIMIT <= nx <= 2 * LIMIT;
    assert(-4 * LIMIT * LIMIT <= dvy * ny <= 4 * LIMIT * LIMIT) by (nonlinear_arith)
        requires -2 * LIMIT <= dvy <= 2 * LIMIT, -2 * LIMIT <= ny <= 2 * LIMIT;
    let dvn = dvx * nx + dvy * ny;
    assert(-16 * LIMIT * LIMIT * LIMIT <= dvn * nx <= 16 * LIMIT * LIMIT * LIMIT)
        by (nonlinear_arith)
        requires -8 * LIMIT * LIMIT <= dvn <= 8 * LIMIT * LIMIT, -2 * LIMIT <= nx <= 2 * LIMIT;
    assert(-16 * LIMIT * LIMIT * LIMIT <= dvn * ny <= 16 * LIMIT * LIMIT * LIMIT)
        by (nonlinear_arith)
        requires -8 * LIMIT * LIMIT <= dvn <= 8 * LIMIT * LIMIT, -2 * LIMIT <= ny <= 2 * LIMIT;
    let qx = div_toward_zero(dvn * nx, nn);
    let qy = div_toward_zero(dvn * ny, nn);
    proof {
        crate::math::lemma_tdiv_bounds(dvn * nx, nn as int);
        crate::math::lemma_tdiv_bounds(dvn * ny, nn as int);
    }
    (saturate(me.vx as i128 + qx, LIMIT), saturate(me.vy as i128 + qy, LIMIT))
}

fn push(b: Body, nx: i128, ny: i128, amount: i128, dist: i128) -> (r: (i64, i64))
    requires
        body_wf(b),
        -2 * LIMIT <= nx <= 2 * LIMIT,
        -2 * LIMIT <= ny <= 2 * LIMIT,
        0 <= amount <= 2 * LIMIT,
        dist > 0,
    ensures
        r.0 as int == pushed(b, nx as int, ny as int, amount as int, dist as int).0,
        r.1 as int == pushed(b, nx as int, ny as int, amount as int, dist as int).1,
{
    assert(-4 * LIMIT * LIMIT <= nx * amount <= 4 * LIMIT * LIMIT) by (nonlinear_arith)
        requires 0 <= amount <= 2 * LIMIT, -2 * LIMIT <= nx <= 2 * LIMIT;
    assert(-4 * LIMIT * LIMIT <= ny * amount <= 4 * LIMIT * LIMIT) by (nonlinear_arith)
        requires 0 <= amount <= 2 * LIMIT, -2 * LIMIT <= ny <= 2 * LIMIT;
    let sx = div_toward_zero(nx * amount, dist);
    let sy = div_toward_zero(ny * amount, dist);
    proof {
        crate::math::lemma_tdiv_bounds(nx * amount, dist as int);
        crate::math::lemma_tdiv_bounds(ny * amount, dist as int);
    }
    (saturate(b.x as i128 + sx, LIMIT), saturate(b.y as i128 + sy, LIMIT))
}

/// Tests two bodies for overlap and, where they overlap, resolves the collision.
/// Both outcomes are computed from the bodies as they were before the call.
pub fn check_collision_between(a: Body, b: Body) -> (r: (Body, Body))
    requires
        body_wf(a),
        body_wf(b),
    ensures
        r == collide(a, b),
        body_wf(r.0),
        body_wf(r.1),
        dist_sq(a, b) > reach_sq(a, b) ==> r == (a, b),
{
    let nx = b.x as i128 - a.x as i128;
    let ny = b.y as i128 - a.y as i128;
    let rs = a.radius as i128 + b.radius as i128;
    assert(0 <= nx * nx <= 4 * LIMIT * LIMIT) by (nonlinear_arith)
        requires -2 * LIMIT <= nx <= 2 * LIMIT;
    assert(0 <= ny * ny <= 4 * LIMIT * LIMIT) by (nonlinear_arith)
        requires -2 * LIMIT <= ny <= 2 * LIMIT;
    assert(0 <= rs * rs <= 4 * LIMIT * LIMIT) by (nonlinear_arith)
        requires 0 <= rs <= 2 * LIMIT;
    let d2 = nx * nx + ny * ny;
    if d2 > rs * rs || d2 == 0 {
        return (a, b);
    }
    let dist_u = isqrt(d2 as u128);
    proof {
        lemma_isqrt_exists(d2 as int);
        lemma_isqrt_unique(d2 as int, dist_u as int, sqrt_floor(d2 as int));
        assert(dist_u > 0) by (nonlinear_arith)
            requires d2 < (dist_u + 1) * (dist_u + 1), d2 > 0, dist_u >= 0;
        assert(dist_u <= rs) by (nonlinear_arith)
            requires dist_u * dist_u <= d2, d2 <= rs * rs, rs >= 0, dist_u >= 0;
    }
    let dist = dist_u as i128;
    let gap = rs - dist;
    let push_a = gap / 2;
    let push_b = gap - push_a;
    let va = exchange(a, b, nx, ny, d2);
    assert((-nx) * (-nx) + (-ny) * (-ny) == d2) by (nonlinear_arith) requires d2 == nx * nx + ny * ny;
    let vb = exchange(b, a, -nx, -ny, d2);
    let pa = push(a, -nx, -ny, push_a, dist);
    let pb = push(b, nx, ny, push_b, dist);
    (
        Body { x: pa.0, y: pa.1, vx: va.0, vy: va.1, radius: a.radius },
        Body { x: pb.0, y: pb.1, vx: vb.0, vy: vb.1, radius: b.radius },
    )
}

} // verus!

verus! {

proof fn lemma_tdiv_exact(k: int, m: int)
    requires
        m > 0,
    ensures
        tdiv(k * m, m) == k,
        tdiv(0, m) == 0,
{
    vstd::arithmetic::div_mod::lemma_div_multiples_vanish(k, m);
    vstd::arithmetic::div_mod::lemma_div_multiples_vanish(-k, m);
    assert(k * m == m * k) by (nonlinear_arith);
    assert(-(k * m) == m * (-k)) by (nonlinear_arith);
}

proof fn lemma_sqrt_of_square(n: int)
    ensures
        sqrt_floor(n * n) == if n >= 0 { n } else { -n },
{
    let a = if n >= 0 { n } else { -n };
    assert(a * a == n * n) by (nonlinear_arith) requires a == n || a == -n;
    assert(n * n < (a + 1) * (a + 1)) by (nonlinear_arith) requires a * a == n * n, a >= 0;
    assert(is_isqrt(n * n, a));
    lemma_isqrt_exists(n * n);
    lemma_isqrt_unique(n * n, a, sqrt_floor(n * n));
}

/// Where the centres share a row, a collision swaps the horizontal velocities exactly,
/// keeps the vertical ones, and so conserves the total kinetic energy of equal masses.
/// Where the pair also lies clear of the saturation bound, the centres end exactly one
/// radius sum apart.
pub proof fn lemma_head_on_horizontal(a: Body, b: Body)
    requires
        body_wf(a),
        body_wf(b),
        a.y == b.y,
    ensures
        energy(collide(a, b).0) + energy(collide(a, b).1) == energy(a) + energy(b),
        overlapping(a, b) && a.x != b.x ==> {
            &&& collide(a, b).0.vx == b.vx
            &&& collide(a, b).1.vx == a.vx
            &&& collide(a, b).0.vy == a.vy
            &&& collide(a, b).1.vy == b.vy
        },
        overlapping(a, b) && a.x != b.x && -LIMIT + 2 * (a.radius + b.radius) <= a.x <= LIMIT
            - 2 * (a.radius + b.radius) && -LIMIT + 2 * (a.radius + b.radius) <= b.x <= LIMIT
            - 2 * (a.radius + b.radius) ==> dist_sq(collide(a, b).0, collide(a, b).1) == reach_sq(
            a,
            b,
        ),
{
    let nx = b.x - a.x;
    let d2 = dist_sq(a, b);
    assert(d2 == nx * nx);
    if nx != 0 {
        assert(nx * nx > 0) by (nonlinear_arith) requires nx != 0;
    }
    if d2 > reach_sq(a, b) || d2 == 0 {
    } else {
        lemma_sqrt_of_square(nx);
        let dist = sqrt_floor(d2);
        lemma_tdiv_exact(b.vx - a.vx, nx * nx);
        lemma_tdiv_exact(a.vx - b.vx, nx * nx);
        assert((b.vx - a.vx) * nx * nx == (b.vx - a.vx) * (nx * nx)) by (nonlinear_arith);
        assert((a.vx - b.vx) * (-nx) * (-nx) == (a.vx - b.vx) * (nx * nx)) by (nonlinear_arith);
        assert(((b.vx - a.vx) * nx + (b.vy - a.vy) * 0) * 0 == 0);
        assert(((a.vx - b.vx) * (-nx) + (a.vy - b.vy) * 0) * 0 == 0);
        assert((-nx) * (-nx) + 0 * 0 == nx * nx) by (nonlinear_arith);
        let gap = a.radius + b.radius - dist;
        let pa = gap / 2;
        let pb = gap - pa;
        assert(dist <= a.radius + b.radius) by (nonlinear_arith)
            requires dist * dist <= d2, d2 <= (a.radius + b.radius) * (a.radius + b.radius),
            dist >= 0, a.radius + b.radius >= 0, d2 == dist * dist;
        assert(0 <= pa <= pb <= gap);
        if nx > 0 {
            lemma_tdiv_exact(-pa, nx);
            lemma_tdiv_exact(pb, nx);
            assert(-nx * pa == (-pa) * nx) by (nonlinear_arith);
            assert(nx * pb == pb * nx) by (nonlinear_arith);
        } else {
            lemma_tdiv_exact(pa, -nx);
            lemma_tdiv_exact(-pb, -nx);
            assert(-nx * pa == pa * (-nx)) by (nonlinear_arith);
            assert(nx * pb == (-pb) * (-nx)) by (nonlinear_arith);
        }
        lemma_tdiv_exact(0, dist);
        assert(0 * pa == 0 && 0 * pb == 0);
        let r = collide(a, b);
        let rs = a.radius + b.radius;
        if -LIMIT + 2 * rs <= a.x <= LIMIT - 2 * rs && -LIMIT + 2 * rs <= b.x <= LIMIT - 2 * rs {
            assert(r.1.x - r.0.x == rs || r.1.x - r.0.x == -rs);
            assert(dist_sq(r.0, r.1) == rs * rs) by (nonlinear_arith)
                requires r.1.x - r.0.x == rs || r.1.x - r.0.x == -rs, r.1.y == r.0.y,
                dist_sq(r.0, r.1) == (r.1.x - r.0.x) * (r.1.x - r.0.x) + (r.1.y - r.0.y) * (
                r.1.y - r.0.y);
        }
    }
}


/// Where the centres share a column, a collision swaps the vertical velocities exactly,
/// keeps the horizontal ones, and so conserves the total kinetic energy of equal masses.
/// Where the pair also lies clear of the saturation bound, the centres end exactly one
/// radius sum apart.
pub proof fn lemma_head_on_vertical(a: Body, b: Body)
    requires
        body_wf(a),
        body_wf(b),
        a.x == b.x,
    ensures
        energy(collide(a, b).0) + energy(collide(a, b).1) == energy(a) + energy(b),
        overlapping(a, b) && a.y != b.y ==> {
            &&& collide(a, b).0.vy == b.vy
            &&& collide(a, b).1.vy == a.vy
            &&& collide(a, b).0.vx == a.vx
            &&& collide(a, b).1.vx == b.vx
        },
        overlapping(a, b) && a.y != b.y && -LIMIT + 2 * (a.radius + b.radius) <= a.y <= LIMIT
            - 2 * (a.radius + b.radius) && -LIMIT + 2 * (a.radius + b.radius) <= b.y <= LIMIT
            - 2 * (a.radius + b.radius) ==> dist_sq(collide(a, b).0, collide(a, b).1) == reach_sq(
            a,
            b,
        ),
{
    let ny = b.y - a.y;
    let d2 = dist_sq(a, b);
    assert(d2 == ny * ny);
    if ny != 0 {
        assert(ny * ny > 0) by (nonlinear_arith) requires ny != 0;
    }
    if d2 > reach_sq(a, b) || d2 == 0 {
    } else {
        lemma_sqrt_of_square(ny);
        let dist = sqrt_floor(d2);
        lemma_tdiv_exact(b.vy - a.vy, ny * ny);
        lemma_tdiv_exact(a.vy - b.vy, ny * ny);
        assert((b.vy - a.vy) * ny * ny == (b.vy - a.vy) * (ny * ny)) by (nonlinear_arith);
        assert((a.vy - b.vy) * (-ny) * (-ny) == (a.vy - b.vy) * (ny * ny)) by (nonlinear_arith);
        assert(((b.vx - a.vx) * 0 + (b.vy - a.vy) * ny) * 0 == 0);
        assert(((a.vx - b.vx) * 0 + (a.vy - b.vy) * (-ny)) * 0 == 0);
        assert(0 * 0 + (-ny) * (-ny) == ny * ny) by (nonlinear_arith);
        let gap = a.radius + b.radius - dist;
        let pa = gap / 2;
        let pb = gap - pa;
        assert(dist <= a.radius + b.radius) by (nonlinear_arith)
            requires dist * dist <= d2, d2 <= (a.radius + b.radius) * (a.radius + b.radius),
            dist >= 0, a.radius + b.radius >= 0, d2 == dist * dist;
        assert(0 <= pa <= pb <= gap);
        if ny > 0 {
            lemma_tdiv_exact(-pa, ny);
            lemma_tdiv_exact(pb, ny);
            assert(-ny * pa == (-pa) * ny) by (nonlinear_arith);
            assert(ny * pb == pb * ny) by (nonlinear_arith);
        } else {
            lemma_tdiv_exact(pa, -ny);
            lemma_tdiv_exact(-pb, -ny);
            assert(-ny * pa == pa * (-ny)) by (nonlinear_arith);
            assert(ny * pb == (-pb) * (-ny)) by (nonlinear_arith);
        }
        lemma_tdiv_exact(0, dist);
        assert(0 * pa == 0 && 0 * pb == 0);
        let r = collide(a, b);
        let rs = a.radius + b.radius;
        if -LIMIT + 2 * rs <= a.y <= LIMIT - 2 * rs && -LIMIT + 2 * rs <= b.y <= LIMIT - 2 * rs {
            assert(r.1.y - r.0.y == rs || r.1.y - r.0.y == -rs);
            assert(dist_sq(r.0, r.1) == rs * rs) by (nonlinear_arith)
                requires r.1.y - r.0.y == rs || r.1.y - r.0.y == -rs, r.1.x == r.0.x,
                dist_sq(r.0, r.1) == (r.1.y - r.0.y) * (r.1.y - r.0.y) + (r.1.x - r.0.x) * (
                r.1.x - r.0.x);
        }
    }
}

} // verus!
