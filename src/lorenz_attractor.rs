use vstd::prelude::*;
use crate::engine::{Command, GlobalContext, MAX_SPEED};
use crate::math::{clamp_to, div_toward_zero, lemma_tdiv_bounds, saturate, tdiv, wide};
use crate::ode::{derivative_at, ints, keeps_length, rk4, rk4_step, rk4_step_by, step_of, ONE};
use crate::playback::{advance_cursor, advanced};

verus! {

/// Number of integration steps of a trajectory.
pub const STEPS: u32 = 10000;

/// End of the integration interval `[0, HORIZON]`, in fixed point (50.0).
pub const HORIZON: i64 = 50_000_000_000;

/// The Lorenz vector field at `(x, y, z)`, in fixed point and saturated.
pub open spec fn lorenz_field(sigma: int, beta: int, rho: int, x: int, y: int, z: int) -> Seq<int> {
    seq![
        wide(tdiv(sigma * (y - x), ONE as int)),
        wide(tdiv(x * (rho - z), ONE as int) - y),
        wide(tdiv(x * y, ONE as int) - tdiv(beta * z, ONE as int)),
    ]
}

/// `d` is the Lorenz field at the three-component state `w`.
pub open spec fn lorenz_derivative(sigma: int, beta: int, rho: int, w: Seq<int>, d: Seq<int>) -> bool {
    w.len() == 3 && d == lorenz_field(sigma, beta, rho, w[0], w[1], w[2])
}

/// The Lorenz system `x' = σ(y - x)`, `y' = x(ρ - z) - y`, `z' = xy - βz`, solved ahead of
/// time and played back.
pub struct LorenzAttractor {
    pub sigma: i64,
    pub beta: i64,
    pub rho: i64,
    pub solutions: Option<(Vec<i64>, Vec<Vec<i64>>)>,
    pub current_index: usize,
    pub done: bool,
}

fn product(a: i64, b: i128) -> (r: i128)
    requires
        -0x1_0000_0000_0000_0000 < b < 0x1_0000_0000_0000_0000,
    ensures
        r == a * b,
        i128::MIN < r,
{
    assert(-0x8000_0000_0000_0000_0000_0000_0000_0000 < a * b < 0x8000_0000_0000_0000_0000_0000_0000_0000)
        by (nonlinear_arith)
        requires -0x8000_0000_0000_0000 <= a < 0x8000_0000_0000_0000, -0x1_0000_0000_0000_0000 < b < 0x1_0000_0000_0000_0000;
    a as i128 * b
}

/// `v` divided by `ONE`, toward zero.
fn shrink(v: i128) -> (q: i128)
    requires
        v > i128::MIN,
    ensures
        q == tdiv(v as int, ONE as int),
        -0x10_0000_0000_0000_0000_0000_0000 <= q <= 0x10_0000_0000_0000_0000_0000_0000,
{
    let q = div_toward_zero(v, ONE as i128);
    proof {
        let big: int = 0x8000_0000_0000_0000_0000_0000_0000_0000;
        let cap: int = 0x10_0000_0000_0000_0000_0000_0000;
        vstd::arithmetic::div_mod::lemma_div_multiples_vanish(cap, ONE as int);
        assert(big <= (ONE as int) * cap);
        vstd::arithmetic::div_mod::lemma_div_is_ordered(big, (ONE as int) * cap, ONE as int);
        if v >= 0 {
            vstd::arithmetic::div_mod::lemma_div_is_ordered(v as int, big, ONE as int);
            lemma_tdiv_bounds(v as int, ONE as int);
        } else {
            vstd::arithmetic::div_mod::lemma_div_is_ordered(-v, big, ONE as int);
            lemma_tdiv_bounds(v as int, ONE as int);
        }
    }
    q
}

impl LorenzAttractor {
    /// The trajectory is stored and each step of it follows the Lorenz field.
    pub open spec fn solved(&self) -> bool {
        match self.solutions {
            Some((ts, ws)) => {
                let h = step_of(0, HORIZON as int, STEPS as int);
                &&& ts@.len() == STEPS + 1
                &&& ws@.len() == STEPS + 1
                &&& ws@[0]@ == seq![0i64, ONE, 1_050_000_000i64]
                &&& forall|i: int| 0 <= i <= STEPS ==> #[trigger] ts@[i] == i * h
                &&& forall|i: int|
                    0 <= i < STEPS ==> rk4_step_by(
                        |s: int, w: Seq<int>, d: Seq<int>|
                            lorenz_derivative(self.sigma as int, self.beta as int, self.rho as int, w, d),
                        ts@[i] as int,
                        h,
                        ints(ws@[i]@),
                        ints(#[trigger] ws@[i + 1]@),
                    )
            },
            None => false,
        }
    }

    pub open spec fn wf(&self) -> bool {
        &&& self.solutions is Some ==> self.solved()
        &&& self.current_index < STEPS + 1
    }

    /// The classic attractor (σ = 10, β = 2.667, ρ = 28), solved at once.
    pub fn new() -> (s: Self)
        ensures
            s.wf(),
            s.sigma == 10 * ONE,
            s.beta == 2_667_000_000,
            s.rho == 28 * ONE,
            s.current_index == 0,
            !s.done,
            s.solutions is Some,
    {
        let mut s = LorenzAttractor {
            sigma: 10 * ONE,
            beta: 2_667_000_000,
            rho: 28 * ONE,
            solutions: None,
            current_index: 0,
            done: false,
        };
        s.solve();
        s
    }

    /// The Lorenz field at `state`, which must hold three values.
    pub fn lorenz(&self, state: &Vec<i64>) -> (d: Vec<i64>)
        requires
            state@.len() == 3,
        ensures
            ints(d@) == lorenz_field(
                self.sigma as int,
                self.beta as int,
                self.rho as int,
                state@[0] as int,
                state@[1] as int,
                state@[2] as int,
            ),
    {
        let x = state[0];
        let y = state[1];
        let z = state[2];
        let ax = product(self.sigma, y as i128 - x as i128);
        let ay = product(x, self.rho as i128 - z as i128);
        let az = product(x, y as i128);
        let bz = product(self.beta, z as i128);
        let dx = saturate(shrink(ax), i64::MAX);
        let dy = saturate(shrink(ay) - y as i128, i64::MAX);
        let dz = saturate(shrink(az) - shrink(bz), i64::MAX);
        let d = vec![dx, dy, dz];
        assert(ints(d@) =~= lorenz_field(
            self.sigma as int,
            self.beta as int,
            self.rho as int,
            x as int,
            y as int,
            z as int,
        ));
        d
    }
}


impl LorenzAttractor {
    /// Integrates the system from `(0, 1, 1.05)` over `[0, 50]` in `STEPS` steps and stores
    /// the trajectory; on failure no trajectory is stored.
    pub fn solve(&mut self)
        requires
            old(self).wf(),
        ensures
            final(self).wf(),
            final(self).sigma == old(self).sigma,
            final(self).beta == old(self).beta,
            final(self).rho == old(self).rho,
            final(self).current_index == old(self).current_index,
            final(self).done == old(self).done,
            final(self).solutions is Some,
    {
        let me: &LorenzAttractor = self;
        let field = |_t: i64, w: &Vec<i64>| -> (d: Vec<i64>)
            ensures
                w@.len() == 3 ==> lorenz_derivative(me.sigma as int, me.beta as int, me.rho as int, ints(w@), ints(d@)),
            {
                if w.len() == 3 {
                    me.lorenz(w)
                } else {
                    Vec::new()
                }
            };
        let r0: Vec<i64> = vec![0, ONE, 1_050_000_000];
        assert(r0@.len() == 3);
        assert(keeps_length(field, 3)) by {
            assert forall|s: i64, y: &Vec<i64>, d: Vec<i64>| #[trigger] field.ensures((s, y), d) && y@.len() == 3
                implies d@.len() == 3 by {
                assert(ints(d@).len() == 3);
            }
        }
        assert(step_of(0, HORIZON as int, STEPS as int) == 5_000_000) by {
            assert(50_000_000_000int / 10000 == 5_000_000) by (nonlinear_arith);
        }
        let sol = rk4(0, HORIZON, r0, field, STEPS);
        proof {
            let dl = |s: int, w: Seq<int>, d: Seq<int>| derivative_at(field, s, w, d);
            let dz = |s: int, w: Seq<int>, d: Seq<int>|
                lorenz_derivative(self.sigma as int, self.beta as int, self.rho as int, w, d);
            assert forall|s: int, w: Seq<int>, d: Seq<int>| #[trigger] dl(s, w, d) && w.len() == 3 implies dz(s, w, d) by {
                let (xv, dv) = choose|xv: Vec<i64>, dv: Vec<i64>|
                    ints(xv@) == w && ints(dv@) == d && d.len() == w.len() && field.ensures((s as i64, &xv), dv);
                assert(xv@.len() == 3);
            }
            if sol is Ok {
                let ts = sol->Ok_0.0@;
                let ws = sol->Ok_0.1@;
                let h = step_of(0, HORIZON as int, STEPS as int);
                assert forall|i: int| 0 <= i < STEPS implies rk4_step_by(
                    dz,
                    ts[i] as int,
                    h,
                    ints(ws[i]@),
                    ints(#[trigger] ws[i + 1]@),
                ) by {
                    assert(rk4_step(field, ts[i] as int, h, ints(ws[i]@), ints(ws[i + 1]@)));
                    crate::ode::lemma_step_by_weaken(dl, dz, ts[i] as int, h, ints(ws[i]@), ints(ws[i + 1]@));
                }
            }
        }
        if let Ok(p) = sol {
            self.solutions = Some(p);
        }
    }

    /// One tick: solves first if no trajectory is stored, then moves the cursor on.
    pub fn update(&mut self, ctx: &GlobalContext)
        requires
            old(self).wf(),
        ensures
            final(self).wf(),
            final(self).done == old(self).done,
            old(self).solutions is Some ==> final(self).solutions == old(self).solutions,
            final(self).solutions is Some,
            final(self).current_index == advanced(
                old(self).current_index as int,
                STEPS + 1,
                ctx.simulation_speed as int,
            ),
    {
        if self.solutions.is_none() {
            self.solve();
        }
        let len = match &self.solutions {
            Some(sol) => sol.1.len(),
            None => 0,
        };
        if len > 0 {
            self.current_index = advance_cursor(self.current_index, len, ctx.simulation_speed);
        }
    }

    /// Applies a command from the driver: exit, cursor reset and speed changes.
    pub fn handle_event(&mut self, ctx: &mut GlobalContext, cmd: Command)
        requires
            old(self).wf(),
            old(ctx).wf(),
        ensures
            final(self).wf(),
            final(ctx).wf(),
            final(self).solutions == old(self).solutions,
            final(self).done == (old(self).done || cmd == Command::Exit),
            final(self).current_index == if cmd == Command::ResetCursor {
                0
            } else {
                old(self).current_index
            },
            final(ctx).paused == old(ctx).paused,
            final(ctx).screen_width == old(ctx).screen_width,
            final(ctx).screen_height == old(ctx).screen_height,
            final(ctx).simulation_speed == match cmd {
                Command::AdjustSpeed(d) => clamp_to(old(ctx).simulation_speed + d, MAX_SPEED as int),
                _ => old(ctx).simulation_speed as int,
            },
    {
        match cmd {
            Command::Exit => {
                self.done = true;
            },
            Command::ResetCursor => {
                self.current_index = 0;
            },
            Command::AdjustSpeed(d) => {
                ctx.adjust_speed(d);
            },
            _ => {},
        }
    }

    pub fn is_done(&self) -> (r: bool)
        ensures
            r == self.done,
    {
        self.done
    }
}

} // verus!
