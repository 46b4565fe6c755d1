use vstd::prelude::*;
use crate::engine::GlobalContext;
use crate::lorenz_attractor::{HORIZON, STEPS};
use crate::math::{div_toward_zero, lemma_tdiv_bounds, saturate, tdiv, wide};
use crate::ode::{pair_derivative, rk42nd_order, rk4_pair_step, rk4_step_by, step_of, OdeError, ONE};
use crate::playback::{advance_cursor, advanced};

verus! {

/// Starting angle: a quarter turn (π/2) in fixed point.
pub const THETA0: i64 = 1_570_796_327;

/// Angular acceleration `-(g / L) sin θ` of a pendulum, from `sin_theta = sin θ`.
pub open spec fn angular_acceleration(gravity: int, length: int, sin_theta: int) -> int {
    wide(tdiv(-gravity * sin_theta, length))
}

/// `d` is the derivative `(ω, -(g / L) sin γ)` of the state `x = (γ, ω)`, with `sin`
/// supplying the sine.
pub open spec fn pendulum_derivative<F: Fn(i64) -> i64>(
    sin: F,
    gravity: int,
    length: int,
    x: Seq<int>,
    d: Seq<int>,
) -> bool {
    &&& x.len() == 2
    &&& d.len() == 2
    &&& d[0] == x[1]
    &&& exists|s: i64| #[trigger] sin.ensures((x[0] as i64,), s) && d[1] == angular_acceleration(gravity, length, s as int)
}

/// A simple pendulum released from a quarter turn, solved ahead of time and played back.
pub struct Pendulum {
    pub solutions: Option<(Vec<i64>, Vec<i64>, Vec<i64>)>,
    pub current_index: usize,
    pub length: i64,
    pub gravity: i64,
}

impl Pendulum {
    pub open spec fn wf(&self) -> bool {
        &&& self.length > 0
        &&& self.current_index < STEPS + 1
        &&& match self.solutions {
            Some((ts, gs, os)) => ts@.len() == STEPS + 1 && gs@.len() == STEPS + 1 && os@.len()
                == STEPS + 1,
            None => true,
        }
    }

    /// `self.solutions` holds the trajectory of the pendulum with the sine `sin`.
    pub open spec fn solved_with<F: Fn(i64) -> i64>(&self, sin: F) -> bool {
        match self.solutions {
            Some((ts, gs, os)) => {
                let h = step_of(0, HORIZON as int, STEPS as int);
                &&& gs@[0] == THETA0
                &&& os@[0] == 0
                &&& forall|i: int| 0 <= i <= STEPS ==> #[trigger] ts@[i] == i * h
                &&& forall|i: int|
                    0 <= i < STEPS ==> rk4_step_by(
                        |s: int, x: Seq<int>, d: Seq<int>|
                            pendulum_derivative(sin, self.gravity as int, self.length as int, x, d),
                        ts@[i] as int,
                        h,
                        seq![gs@[i] as int, os@[i] as int],
                        seq![gs@[i + 1] as int, #[trigger] os@[i + 1] as int],
                    )
            },
            None => false,
        }
    }

    /// Angular acceleration at an angle whose sine is `sin_theta`.
    pub fn domega(&self, sin_theta: i64) -> (r: i64)
        requires
            self.length > 0,
        ensures
            r == angular_acceleration(self.gravity as int, self.length as int, sin_theta as int),
    {
        let g = self.gravity as i128;
        let s = sin_theta as i128;
        assert(-0x4000_0000_0000_0000_0000_0000_0000_0000 <= -g * s <= 0x4000_0000_0000_0000_0000_0000_0000_0000)
            by (nonlinear_arith)
            requires -0x8000_0000_0000_0000 <= g <= 0x8000_0000_0000_0000, -0x8000_0000_0000_0000 <= s <= 0x8000_0000_0000_0000;
        let q = div_toward_zero(-g * s, self.length as i128);
        proof {
            lemma_tdiv_bounds(-g * s, self.length as int);
        }
        saturate(q, i64::MAX)
    }

    /// A pendulum of the given length and gravity (fixed point), solved with `sin`.
    pub fn with_parameters<F: Fn(i64) -> i64>(length: i64, gravity: i64, sin: F) -> (r: Result<
        Pendulum,
        OdeError,
    >)
        requires
            forall|x: i64| sin.requires((x,)),
        ensures
            (r == Err::<Pendulum, OdeError>(OdeError::NonPositiveLength)) <==> length <= 0,
            length > 0 <==> r is Ok,
            r is Ok ==> {
                let p = r->Ok_0;
                &&& p.wf()
                &&& p.length == length
                &&& p.gravity == gravity
                &&& p.current_index == 0
                &&& p.solved_with(sin)
            },
    {
        if length <= 0 {
            return Err(OdeError::NonPositiveLength);
        }
        let mut p = Pendulum { solutions: None, current_index: 0, length, gravity };
        p.solve(sin);
        Ok(p)
    }

    /// The pendulum of length 2 under gravity 9.8, solved with `sin`.
    pub fn new<F: Fn(i64) -> i64>(sin: F) -> (p: Pendulum)
        requires
            forall|x: i64| sin.requires((x,)),
        ensures
            p.wf(),
            p.length == 2 * ONE,
            p.gravity == 9_800_000_000,
            p.current_index == 0,
            p.solved_with(sin),
    {
        let mut p = Pendulum { solutions: None, current_index: 0, length: 2 * ONE, gravity: 9_800_000_000 };
        p.solve(sin);
        p
    }

    /// Integrates the angle from a quarter turn at rest over `[0, 50]` in `STEPS` steps.
    pub fn solve<F: Fn(i64) -> i64>(&mut self, sin: F)
        requires
            old(self).wf(),
            forall|x: i64| sin.requires((x,)),
        ensures
            final(self).wf(),
            final(self).length == old(self).length,
            final(self).gravity == old(self).gravity,
            final(self).current_index == old(self).current_index,
            final(self).solutions is Some,
            final(self).solved_with(sin),
    {
        let me: &Pendulum = self;
        let sn = &sin;
        let dtheta = |_t: i64, _g: i64, o: i64| -> (r: i64)
            ensures
                r == o,
            { o };
        let domega = |_t: i64, g: i64, _o: i64| -> (r: i64)
            ensures
                exists|s: i64| #[trigger] (*sn).ensures((g,), s) && r == angular_acceleration(
                    me.gravity as int,
                    me.length as int,
                    s as int,
                ),
            {
                let s = sn(g);
                me.domega(s)
            };
        assert(step_of(0, HORIZON as int, STEPS as int) == 5_000_000) by {
            assert(50_000_000_000int / 10000 == 5_000_000) by (nonlinear_arith);
        }
        let sol = rk42nd_order(0, HORIZON, THETA0, 0, dtheta, domega, STEPS);
        proof {
            let dp = |s: int, x: Seq<int>, d: Seq<int>| pair_derivative(dtheta, domega, s, x, d);
            let dq = |s: int, x: Seq<int>, d: Seq<int>|
                pendulum_derivative(sin, self.gravity as int, self.length as int, x, d);
            assert forall|s: int, x: Seq<int>, d: Seq<int>| #[trigger] dp(s, x, d) && x.len() == 2 implies dq(s, x, d) by {
                assert(dtheta.ensures((s as i64, x[0] as i64, x[1] as i64), d[0] as i64));
                assert(domega.ensures((s as i64, x[0] as i64, x[1] as i64), d[1] as i64));
            }
            if sol is Ok {
                let ts = sol->Ok_0.0@;
                let gs = sol->Ok_0.1@;
                let os = sol->Ok_0.2@;
                let h = step_of(0, HORIZON as int, STEPS as int);
                assert forall|i: int| 0 <= i < STEPS implies rk4_step_by(
                    dq,
                    ts[i] as int,
                    h,
                    seq![gs[i] as int, os[i] as int],
                    seq![gs[i + 1] as int, #[trigger] os[i + 1] as int],
                ) by {
                    assert(rk4_pair_step(dtheta, domega, ts[i] as int, h, seq![gs[i] as int, os[i] as int], seq![gs[i + 1] as int, os[i + 1] as int]));
                    crate::ode::lemma_step_by_weaken(dp, dq, ts[i] as int, h, seq![gs[i] as int, os[i] as int], seq![gs[i + 1] as int, os[i + 1] as int]);
                }
            }
        }
        if let Ok(p) = sol {
            self.solutions = Some(p);
        }
    }

    /// One tick: moves the cursor on through the stored trajectory.
    pub fn update(&mut self, ctx: &GlobalContext)
        requires
            old(self).wf(),
        ensures
            final(self).wf(),
            final(self).solutions == old(self).solutions,
            final(self).length == old(self).length,
            final(self).gravity == old(self).gravity,
            old(self).solutions is Some ==> final(self).current_index == advanced(
                old(self).current_index as int,
                STEPS + 1,
                ctx.simulation_speed as int,
            ),
            old(self).solutions is None ==> final(self).current_index == old(self).current_index,
    {
        let len = match &self.solutions {
            Some(sol) => sol.1.len(),
            None => 0,
        };
        if len > 0 {
            self.current_index = advance_cursor(self.current_index, len, ctx.simulation_speed);
        }
    }
}

} // verus!
