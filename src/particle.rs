use vstd::prelude::*;
use crate::math::{clamp_to, div_toward_zero, lemma_tdiv_bounds, saturate, tdiv};

verus! {

/// Sub-pixel units in one pixel: positions, radii and velocities are fixed-point.
pub const SUBPIXELS: i64 = 1000;

/// Microseconds in one second: time steps are given in microseconds.
pub const MICROS: i64 = 1_000_000;

/// Downward acceleration, in sub-pixels per second squared (980 px/s²).
pub const GRAVITY: i64 = 980_000;

/// Share of the speed kept by a bounce off a wall, in thousandths.
pub const ELASTICITY: i64 = 1000;

/// Most positions a trail keeps.
pub const TRACE_LIMIT: usize = 20;

/// Largest magnitude of a coordinate or velocity component; updates saturate here.
pub const LIMIT: i64 = 1_000_000_000_000;

/// Largest screen side, in pixels, whose edge still lies within `LIMIT`.
pub const MAX_SCREEN: u32 = 1_000_000_000;

/// Largest magnitude of a time step, in microseconds (about seventeen minutes).
pub const MAX_STEP: i64 = 1_000_000_000;

/// One past position of a particle.
#[derive(Clone, Copy, Debug, PartialEq, Eq, Structural)]
pub struct Trace {
    pub x: i64,
    pub y: i64,
}

/// What the collision response reads and writes of a particle.
#[derive(Clone, Copy, Debug, PartialEq, Eq, Structural)]
pub struct Body {
    pub x: i64,
    pub y: i64,
    pub vx: i64,
    pub vy: i64,
    pub radius: i64,
}

pub open spec fn body_wf(b: Body) -> bool {
    &&& in_limit(b.x as int)
    &&& in_limit(b.y as int)
    &&& in_limit(b.vx as int)
    &&& in_limit(b.vy as int)
    &&& 0 < b.radius <= LIMIT
}

/// A circular body: centre, velocity, radius and the trail of its recent centres.
pub struct Particle {
    pub x: i64,
    pub y: i64,
    pub vx: i64,
    pub vy: i64,
    pub radius: i64,
    pub traces: Vec<Trace>,
}

pub open spec fn in_limit(v: int) -> bool {
    -LIMIT <= v <= LIMIT
}

/// Velocity after accelerating by `acc` for `dt` microseconds.
pub open spec fn accelerate(v: int, acc: int, dt: int) -> int {
    clamp_to(v + tdiv(acc * dt, MICROS as int), LIMIT as int)
}

/// Position after moving at velocity `v` for `dt` microseconds.
pub open spec fn advance(p: int, v: int, dt: int) -> int {
    clamp_to(p + tdiv(v * dt, MICROS as int), LIMIT as int)
}

/// Whether a body of radius `r` centred at `p` pokes out of `[0, hi]`.
pub open spec fn crosses_wall(p: int, r: int, hi: int) -> bool {
    p - r < 0 || p + r > hi
}

/// Centre after clamping a body of radius `r` back inside `[0, hi]`.
pub open spec fn reflect_position(p: int, r: int, hi: int) -> int {
    if p - r < 0 {
        r
    } else if p + r > hi {
        hi - r
    } else {
        p
    }
}

/// Velocity component after a wall hit: reversed and scaled by the elasticity.
pub open spec fn bounce(v: int) -> int {
    tdiv(-v * ELASTICITY, 1000)
}

pub open spec fn reflect_velocity(p: int, v: int, r: int, hi: int) -> int {
    if crosses_wall(p, r, hi) {
        bounce(v)
    } else {
        v
    }
}

/// The body after one tick of `dt` microseconds in a box of `w` by `h` sub-pixels:
/// gravity, then semi-implicit Euler, then reflection off the walls.
pub open spec fn step_body(b: Body, dt: int, w: int, h: int) -> Body {
    let r = b.radius as int;
    let vy1 = accelerate(b.vy as int, GRAVITY as int, dt);
    let x1 = advance(b.x as int, b.vx as int, dt);
    let y1 = advance(b.y as int, vy1, dt);
    Body {
        x: reflect_position(x1, r, w) as i64,
        y: reflect_position(y1, r, h) as i64,
        vx: reflect_velocity(x1, b.vx as int, r, w) as i64,
        vy: reflect_velocity(y1, vy1, r, h) as i64,
        radius: b.radius,
    }
}

/// The trail after one tick that ended with the centre at `t`.
pub open spec fn trail_step(trail: Seq<Trace>, t: Trace, enable_traces: bool) -> Seq<Trace> {
    if enable_traces {
        trail_after(trail, t)
    } else {
        Seq::empty()
    }
}

/// The trail after recording `t`: appended, and the oldest entry dropped past the cap.
pub open spec fn trail_after(trail: Seq<Trace>, t: Trace) -> Seq<Trace> {
    let s = trail.push(t);
    if s.len() > TRACE_LIMIT {
        s.drop_first()
    } else {
        s
    }
}

/// The last `min(n, s.len())` entries of `s`, in order.
pub open spec fn latest(s: Seq<Trace>, n: nat) -> Seq<Trace> {
    if s.len() <= n {
        s
    } else {
        s.subrange(s.len() - n, s.len() as int)
    }
}

/// The trail after recording each position of `ps` in turn.
pub open spec fn trail_after_all(trail: Seq<Trace>, ps: Seq<Trace>) -> Seq<Trace>
    decreases ps.len(),
{
    if ps.len() == 0 {
        trail
    } else {
        trail_after_all(trail_after(trail, ps[0]), ps.drop_first())
    }
}

proof fn lemma_latest_twice(a: Seq<Trace>, b: Seq<Trace>, n: nat)
    ensures
        latest(latest(a, n) + b, n) == latest(a + b, n),
{
    let l = latest(a, n);
    assert(l =~= a.subrange(a.len() - l.len(), a.len() as int));
    let lhs = latest(l + b, n);
    let rhs = latest(a + b, n);
    assert(lhs.len() == rhs.len());
    assert forall|i: int| 0 <= i < lhs.len() implies lhs[i] == rhs[i] by {
        let k = lhs.len() as int;
        assert(lhs[i] == (l + b)[(l + b).len() - k + i]);
        assert(rhs[i] == (a + b)[(a + b).len() - k + i]);
    }
    assert(lhs =~= rhs);
}

/// Recording positions with tracing on keeps exactly the most recent `TRACE_LIMIT`
/// of them (all of them while there are fewer), oldest first.
pub proof fn lemma_trail_keeps_latest(trail: Seq<Trace>, ps: Seq<Trace>)
    requires
        trail.len() <= TRACE_LIMIT,
    ensures
        trail_after_all(trail, ps) == latest(trail + ps, TRACE_LIMIT as nat),
        trail.len() + ps.len() >= TRACE_LIMIT ==> trail_after_all(trail, ps).len() == TRACE_LIMIT,
        ps.len() >= TRACE_LIMIT ==> trail_after_all(trail, ps) == ps.subrange(
            ps.len() - TRACE_LIMIT,
            ps.len() as int,
        ),
    decreases ps.len(),
{
    if ps.len() == 0 {
        assert(trail + ps =~= trail);
    } else {
        let t1 = trail_after(trail, ps[0]);
        assert(t1 == latest(trail.push(ps[0]), TRACE_LIMIT as nat)) by {
            if trail.push(ps[0]).len() > TRACE_LIMIT {
                assert(trail.push(ps[0]).drop_first() =~= trail.push(ps[0]).subrange(1, 21));
            }
        }
        lemma_trail_keeps_latest(t1, ps.drop_first());
        lemma_latest_twice(trail.push(ps[0]), ps.drop_first(), TRACE_LIMIT as nat);
        assert(trail.push(ps[0]) + ps.drop_first() =~= trail + ps);
    }
    let all = trail + ps;
    if ps.len() >= TRACE_LIMIT {
        assert(all.subrange(all.len() - 20, all.len() as int) =~= ps.subrange(
            ps.len() - 20,
            ps.len() as int,
        ));
    }
}

impl Particle {
    pub open spec fn wf(&self) -> bool {
        &&& in_limit(self.x as int)
        &&& in_limit(self.y as int)
        &&& in_limit(self.vx as int)
        &&& in_limit(self.vy as int)
        &&& 0 < self.radius <= LIMIT
        &&& self.traces.len() <= TRACE_LIMIT
    }

    pub open spec fn position(&self) -> Trace {
        Trace { x: self.x, y: self.y }
    }

    pub open spec fn body_view(&self) -> Body {
        Body { x: self.x, y: self.y, vx: self.vx, vy: self.vy, radius: self.radius }
    }

    /// Copy of the centre, velocity and radius.
    pub fn body(&self) -> (b: Body)
        ensures
            b == self.body_view(),
    {
        Body { x: self.x, y: self.y, vx: self.vx, vy: self.vy, radius: self.radius }
    }

    /// Takes the centre and velocity of `b`; the radius and trail stay.
    pub fn set_body(&mut self, b: Body)
        requires
            old(self).wf(),
            body_wf(b),
            b.radius == old(self).radius,
        ensures
            final(self).wf(),
            final(self).body_view() == b,
            final(self).traces == old(self).traces,
    {
        self.x = b.x;
        self.y = b.y;
        self.vx = b.vx;
        self.vy = b.vy;
    }

    pub fn new(x: i64, y: i64, vx: i64, vy: i64, radius: i64) -> (p: Self)
        requires
            in_limit(x as int),
            in_limit(y as int),
            in_limit(vx as int),
            in_limit(vy as int),
            0 < radius <= LIMIT,
        ensures
            p.wf(),
            p.x == x && p.y == y && p.vx == vx && p.vy == vy && p.radius == radius,
            p.traces@ == seq![Trace { x, y }],
    {
        Particle { x, y, vx, vy, radius, traces: vec![Trace { x, y }] }
    }

    /// One tick of `dt` microseconds inside a `screen_w` by `screen_h` pixel box:
    /// gravity, then semi-implicit Euler, then reflection off the walls, then the trail.
    pub fn update(&mut self, dt: i64, screen_w: u32, screen_h: u32, enable_traces: bool)
        requires
            old(self).wf(),
            -MAX_STEP <= dt <= MAX_STEP,
            screen_w <= MAX_SCREEN,
            screen_h <= MAX_SCREEN,
        ensures
            final(self).wf(),
            final(self).body_view() == step_body(
                old(self).body_view(),
                dt as int,
                screen_w as int * SUBPIXELS,
                screen_h as int * SUBPIXELS,
            ),
            final(self).traces@ == trail_step(
                old(self).traces@,
                final(self).position(),
                enable_traces,
            ),
    {
        let dt_wide = dt as i128;
        proof {
            lemma_tdiv_bounds(GRAVITY as int * dt, MICROS as int);
            lemma_tdiv_bounds(self.vx as int * dt, MICROS as int);
        }
        assert(-980_000_000_000_000i128 <= GRAVITY as i128 * dt_wide <= 980_000_000_000_000i128)
            by (nonlinear_arith) requires -MAX_STEP <= dt <= MAX_STEP, dt_wide == dt;
        let gain = div_toward_zero(GRAVITY as i128 * dt_wide, MICROS as i128);
        self.vy = saturate(self.vy as i128 + gain, LIMIT);

        assert(-LIMIT * MAX_STEP <= self.vx as i128 * dt_wide <= LIMIT * MAX_STEP)
            by (nonlinear_arith) requires in_limit(self.vx as int), -MAX_STEP <= dt <= MAX_STEP,
            dt_wide == dt;
        assert(-LIMIT * MAX_STEP <= self.vy as i128 * dt_wide <= LIMIT * MAX_STEP)
            by (nonlinear_arith) requires in_limit(self.vy as int), -MAX_STEP <= dt <= MAX_STEP,
            dt_wide == dt;
        proof {
            lemma_tdiv_bounds(self.vy as int * dt, MICROS as int);
        }
        let dx = div_toward_zero(self.vx as i128 * dt_wide, MICROS as i128);
        let dy = div_toward_zero(self.vy as i128 * dt_wide, MICROS as i128);
        self.x = saturate(self.x as i128 + dx, LIMIT);
        self.y = saturate(self.y as i128 + dy, LIMIT);

        let r = self.radius;
        let w = screen_w as i64 * SUBPIXELS;
        let h = screen_h as i64 * SUBPIXELS;
        if self.x - r < 0 {
            self.x = r;
            self.vx = reflect(self.vx);
        } else if self.x + r > w {
            self.x = w - r;
            self.vx = reflect(self.vx);
        }
        if self.y - r < 0 {
            self.y = r;
            self.vy = reflect(self.vy);
        } else if self.y + r > h {
            self.y = h - r;
            self.vy = reflect(self.vy);
        }

        if enable_traces {
            self.traces.push(Trace { x: self.x, y: self.y });
            if self.traces.len() > TRACE_LIMIT {
                self.traces.remove(0);
            }
        } else {
            self.traces.clear();
        }
    }

    pub fn set_position(&mut self, nx: i64, ny: i64)
        requires
            old(self).wf(),
            in_limit(nx as int),
            in_limit(ny as int),
        ensures
            final(self).wf(),
            final(self).x == nx,
            final(self).y == ny,
            final(self).vx == old(self).vx,
            final(self).vy == old(self).vy,
            final(self).radius == old(self).radius,
            final(self).traces == old(self).traces,
    {
        self.x = nx;
        self.y = ny;
    }
}

/// A velocity component bounced off a wall.
fn reflect(v: i64) -> (r: i64)
    requires
        in_limit(v as int),
    ensures
        r == bounce(v as int),
        in_limit(r as int),
{
    let p = -(v as i128) * (ELASTICITY as i128);
    assert(-LIMIT * 1000 <= p <= LIMIT * 1000) by (nonlinear_arith)
        requires in_limit(v as int), p == -v * 1000;
    let q = div_toward_zero(p, 1000);
    assert(-LIMIT <= q <= LIMIT) by {
        if p >= 0 {
            assert(p / 1000 <= LIMIT) by (nonlinear_arith) requires 0 <= p <= LIMIT * 1000;
        } else {
            assert((-p) / 1000 <= LIMIT) by (nonlinear_arith) requires 0 <= -p <= LIMIT * 1000;
        }
        lemma_tdiv_bounds(p as int, 1000);
    }
    q as i64
}

} // verus!
