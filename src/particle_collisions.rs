use vstd::prelude::*;
use crate::collision::{check_collision_between, collide};
use crate::engine::{Command, GlobalContext, MAX_SPEED};
use crate::grid::{distinct, SpatialGrid, CELL_SIZE};
use crate::math::{clamp_to, tdiv};
use crate::particle::{step_body, trail_step, Body, Particle, MAX_SCREEN, MAX_STEP, SUBPIXELS};
use rand::Rng;

verus! {

/// Radius of a spawned particle, in sub-pixels (10 px).
pub const SPAWN_RADIUS: i64 = 10_000;

/// Spawned speeds are drawn from `[-SPAWN_SPEED, SPAWN_SPEED)` and then divided by 1.5.
pub const SPAWN_SPEED: i64 = 200;

/// Relies on rand's `Rng::gen_range` over `lo..hi` on the thread-local generator: a value
/// in `[lo, hi)`. It panics on an empty range, which `requires` leaves out.
#[verifier::external_body]
fn random_in(lo: i64, hi: i64) -> (r: i64)
    requires
        lo < hi,
    ensures
        lo <= r < hi,
{
    rand::thread_rng().gen_range(lo..hi)
}

pub open spec fn bodies(ps: Seq<Particle>) -> Seq<Body> {
    Seq::new(ps.len(), |k: int| ps[k].body_view())
}

/// The bodies after resolving the pair `e`.
pub open spec fn apply_pair(bs: Seq<Body>, e: (usize, usize)) -> Seq<Body> {
    let r = collide(bs[e.0 as int], bs[e.1 as int]);
    bs.update(e.0 as int, r.0).update(e.1 as int, r.1)
}

/// The bodies after resolving the pairs of `pairs` in order.
pub open spec fn apply_pairs(bs: Seq<Body>, pairs: Seq<(usize, usize)>) -> Seq<Body>
    decreases pairs.len(),
{
    if pairs.len() == 0 {
        bs
    } else {
        apply_pair(apply_pairs(bs, pairs.drop_last()), pairs.last())
    }
}

/// `pairs` lists each candidate pair of `grid` exactly once.
pub open spec fn lists_candidates(grid: SpatialGrid, pairs: Seq<(usize, usize)>) -> bool {
    &&& distinct(pairs)
    &&& forall|e: (usize, usize)| #[trigger] pairs.contains(e) <==> grid.related(e.0 as int, e.1 as int)
}

/// Bouncing particles under gravity, with a grid for finding contacts.
pub struct ParticleCollisionScene {
    pub done: bool,
    pub particles: Vec<Particle>,
    pub enable_traces: bool,
    pub grid: SpatialGrid,
}

impl ParticleCollisionScene {
    pub open spec fn wf(&self) -> bool {
        &&& self.grid.wf()
        &&& self.grid.cell_size == CELL_SIZE
        &&& forall|k: int| 0 <= k < self.particles@.len() ==> (#[trigger] self.particles@[k]).wf()
        &&& forall|k: int|
            0 <= k < self.particles@.len() ==> 2 * (#[trigger] self.particles@[k]).radius <= CELL_SIZE
                * SUBPIXELS
    }

    /// An empty scene whose grid covers the screen of `ctx`.
    pub fn new(ctx: &GlobalContext) -> (s: Self)
        requires
            (ctx.screen_width / CELL_SIZE + 1) as int * (ctx.screen_height / CELL_SIZE + 1) as int
                <= usize::MAX,
        ensures
            s.wf(),
            !s.done,
            s.enable_traces,
            s.particles@.len() == 0,
            s.grid.assigned@.len() == 0,
            s.grid.cols == ctx.screen_width / CELL_SIZE + 1,
            s.grid.rows == ctx.screen_height / CELL_SIZE + 1,
    {
        ParticleCollisionScene {
            done: false,
            particles: Vec::new(),
            enable_traces: true,
            grid: SpatialGrid::new(ctx.screen_width, ctx.screen_height, CELL_SIZE),
        }
    }

    /// Rebuilds the grid from the particles' current centres.
    pub fn assign_particles_to_grid(&mut self)
        requires
            old(self).wf(),
        ensures
            final(self).wf(),
            final(self).particles == old(self).particles,
            final(self).done == old(self).done,
            final(self).enable_traces == old(self).enable_traces,
            final(self).grid.cols == old(self).grid.cols,
            final(self).grid.rows == old(self).grid.rows,
            final(self).grid.assigned@ == old(self).grid.assignment(old(self).particles@),
    {
        self.grid.rebuild(&self.particles);
    }

    /// Resolves every candidate pair of the grid once; the grid must have been built from
    /// the current particles.
    pub fn check_collisions(&mut self)
        requires
            old(self).wf(),
            old(self).grid.assigned@.len() == old(self).particles@.len(),
        ensures
            final(self).wf(),
            final(self).grid == old(self).grid,
            final(self).done == old(self).done,
            final(self).enable_traces == old(self).enable_traces,
            final(self).particles@.len() == old(self).particles@.len(),
            forall|k: int|
                0 <= k < old(self).particles@.len() ==> (#[trigger] final(self).particles@[k]).traces
                    == old(self).particles@[k].traces,
            exists|pairs: Seq<(usize, usize)>|
                lists_candidates(old(self).grid, pairs) && bodies(final(self).particles@)
                    == apply_pairs(bodies(old(self).particles@), pairs),
    {
        let pairs = self.grid.candidate_pairs();
        let ghost start = self.particles@;
        let mut i: usize = 0;
        while i < pairs.len()
            invariant
                self.wf(),
                self.grid == old(self).grid,
                self.done == old(self).done,
                self.enable_traces == old(self).enable_traces,
                start == old(self).particles@,
                self.particles@.len() == start.len(),
                self.grid.assigned@.len() == start.len(),
                lists_candidates(self.grid, pairs@),
                i <= pairs@.len(),
                forall|k: int| 0 <= k < start.len() ==> (#[trigger] self.particles@[k]).traces == start[k].traces,
                bodies(self.particles@) == apply_pairs(bodies(start), pairs@.take(i as int)),
            decreases pairs@.len() - i,
        {
            let (a, b) = pairs[i];
            assert(pairs@.contains((a, b)));
            let ghost bs = bodies(self.particles@);
            let ba = self.particles[a].body();
            let bb = self.particles[b].body();
            let (na, nb) = check_collision_between(ba, bb);
            self.particles[a].set_body(na);
            self.particles[b].set_body(nb);
            assert(pairs@.take(i + 1).drop_last() == pairs@.take(i as int));
            assert(bodies(self.particles@) =~= apply_pair(bs, (a, b)));
            i = i + 1;
        }
        assert(pairs@.take(pairs@.len() as int) == pairs@);
    }
}


/// Velocity of a spawned particle from a draw `d` of `[-SPAWN_SPEED, SPAWN_SPEED)`:
/// `d / 1.5` pixels per second, in sub-pixels.
pub open spec fn spawn_speed(d: int) -> int {
    tdiv(d * 2 * SUBPIXELS, 3)
}

/// `p` is a freshly spawned particle on a `w` by `h` pixel screen.
pub open spec fn freshly_spawned(p: Particle, w: int, h: int) -> bool {
    &&& p.wf()
    &&& p.radius == SPAWN_RADIUS
    &&& 0 <= p.x < w * SUBPIXELS && p.x % SUBPIXELS == 0
    &&& 0 <= p.y < h * SUBPIXELS && p.y % SUBPIXELS == 0
    &&& exists|d: int| -SPAWN_SPEED <= d < SPAWN_SPEED && p.vx == spawn_speed(d)
    &&& exists|d: int| -SPAWN_SPEED <= d < SPAWN_SPEED && p.vy == spawn_speed(d)
    &&& p.traces@ == seq![p.position()]
}

impl ParticleCollisionScene {
    /// Adds a particle at pixel `(px, py)` whose velocity comes from the draws `vx`, `vy`.
    pub fn spawn_with(&mut self, px: u32, py: u32, vx: i64, vy: i64)
        requires
            old(self).wf(),
            px <= MAX_SCREEN,
            py <= MAX_SCREEN,
            -SPAWN_SPEED <= vx < SPAWN_SPEED,
            -SPAWN_SPEED <= vy < SPAWN_SPEED,
        ensures
            final(self).wf(),
            final(self).grid == old(self).grid,
            final(self).done == old(self).done,
            final(self).enable_traces == old(self).enable_traces,
            final(self).particles@.len() == old(self).particles@.len() + 1,
            final(self).particles@.drop_last() == old(self).particles@,
            ({
                let p = final(self).particles@.last();
                &&& p.wf()
                &&& p.body_view() == (Body {
                    x: (px * SUBPIXELS) as i64,
                    y: (py * SUBPIXELS) as i64,
                    vx: spawn_speed(vx as int) as i64,
                    vy: spawn_speed(vy as int) as i64,
                    radius: SPAWN_RADIUS,
                })
                &&& p.traces@ == seq![p.position()]
            }),
    {
        let x = px as i64 * SUBPIXELS;
        let y = py as i64 * SUBPIXELS;
        let sx = vx * 2 * SUBPIXELS;
        let sy = vy * 2 * SUBPIXELS;
        let svx = if sx >= 0 { sx / 3 } else { -((-sx) / 3) };
        let svy = if sy >= 0 { sy / 3 } else { -((-sy) / 3) };
        self.particles.push(Particle::new(x, y, svx, svy, SPAWN_RADIUS));
        assert(self.particles@.drop_last() =~= old(self).particles@);
    }

    /// Adds one particle at a random place on the screen with a random velocity; a
    /// screen without area gets none.
    pub fn spawn_particle(&mut self, ctx: &GlobalContext)
        requires
            old(self).wf(),
            ctx.wf(),
        ensures
            final(self).wf(),
            final(self).grid == old(self).grid,
            final(self).done == old(self).done,
            final(self).enable_traces == old(self).enable_traces,
            ctx.screen_width == 0 || ctx.screen_height == 0 ==> final(self).particles
                == old(self).particles,
            ctx.screen_width > 0 && ctx.screen_height > 0 ==> {
                &&& final(self).particles@.len() == old(self).particles@.len() + 1
                &&& final(self).particles@.drop_last() == old(self).particles@
                &&& freshly_spawned(
                    final(self).particles@.last(),
                    ctx.screen_width as int,
                    ctx.screen_height as int,
                )
            },
    {
        if ctx.screen_width == 0 || ctx.screen_height == 0 {
            return;
        }
        let px = random_in(0, ctx.screen_width as i64);
        let py = random_in(0, ctx.screen_height as i64);
        let vx = random_in(-SPAWN_SPEED, SPAWN_SPEED);
        let vy = random_in(-SPAWN_SPEED, SPAWN_SPEED);
        self.spawn_with(px as u32, py as u32, vx, vy);
        proof {
            let p = self.particles@.last();
            assert(p.x == px * SUBPIXELS);
            assert(p.x < ctx.screen_width * SUBPIXELS) by (nonlinear_arith)
                requires p.x == px * SUBPIXELS, px < ctx.screen_width;
            assert(p.y < ctx.screen_height * SUBPIXELS) by (nonlinear_arith)
                requires p.y == py * SUBPIXELS, py < ctx.screen_height;
            assert(p.x % SUBPIXELS == 0) by (nonlinear_arith) requires p.x == px * SUBPIXELS;
            assert(p.y % SUBPIXELS == 0) by (nonlinear_arith) requires p.y == py * SUBPIXELS;
        }
    }

    /// One simulation tick of `dt` microseconds of real time, unless paused: the grid is
    /// rebuilt, every candidate pair is resolved once, then each particle moves.
    pub fn update(&mut self, ctx: &GlobalContext, dt: i64)
        requires
            old(self).wf(),
            ctx.wf(),
        ensures
            final(self).wf(),
            final(self).done == old(self).done,
            final(self).enable_traces == old(self).enable_traces,
            final(self).grid.cols == old(self).grid.cols,
            final(self).grid.rows == old(self).grid.rows,
            ctx.paused ==> final(self).particles == old(self).particles && final(self).grid
                == old(self).grid,
            !ctx.paused ==> {
                &&& final(self).particles@.len() == old(self).particles@.len()
                &&& final(self).grid.assigned@ == old(self).grid.assignment(old(self).particles@)
                &&& exists|pairs: Seq<(usize, usize)>|
                    #![trigger lists_candidates(final(self).grid, pairs)]
                    lists_candidates(final(self).grid, pairs) && forall|k: int|
                        0 <= k < old(self).particles@.len() ==> {
                            &&& (#[trigger] final(self).particles@[k]).body_view() == step_body(
                                apply_pairs(bodies(old(self).particles@), pairs)[k],
                                ctx.scaled_step_spec(dt as int),
                                ctx.screen_width * SUBPIXELS,
                                ctx.screen_height * SUBPIXELS,
                            )
                            &&& final(self).particles@[k].traces@ == trail_step(
                                old(self).particles@[k].traces@,
                                final(self).particles@[k].position(),
                                old(self).enable_traces,
                            )
                        }
            },
    {
        if ctx.paused {
            return;
        }
        let real_dt = ctx.scaled_step(dt);
        self.assign_particles_to_grid();
        self.check_collisions();
        let ghost mid = self.particles@;
        let ghost pairs = choose|pairs: Seq<(usize, usize)>|
            lists_candidates(self.grid, pairs) && bodies(mid) == apply_pairs(
                bodies(old(self).particles@),
                pairs,
            );
        let traces_on = self.enable_traces;
        let w = ctx.screen_width;
        let h = ctx.screen_height;
        let mut k: usize = 0;
        while k < self.particles.len()
            invariant
                self.wf(),
                ctx.wf(),
                w == ctx.screen_width,
                h == ctx.screen_height,
                -MAX_STEP <= real_dt <= MAX_STEP,
                self.grid.assigned@ == old(self).grid.assignment(old(self).particles@),
                self.grid.cols == old(self).grid.cols,
                self.grid.rows == old(self).grid.rows,
                self.done == old(self).done,
                self.enable_traces == old(self).enable_traces,
                traces_on == old(self).enable_traces,
                lists_candidates(self.grid, pairs),
                self.particles@.len() == mid.len(),
                mid.len() == old(self).particles@.len(),
                k <= mid.len(),
                bodies(mid) == apply_pairs(bodies(old(self).particles@), pairs),
                forall|j: int| 0 <= j < mid.len() ==> (#[trigger] mid[j]).traces == old(self).particles@[j].traces,
                forall|j: int| k <= j < mid.len() ==> #[trigger] self.particles@[j] == mid[j],
                forall|j: int|
                    0 <= j < k ==> {
                        &&& (#[trigger] self.particles@[j]).body_view() == step_body(
                            mid[j].body_view(),
                            real_dt as int,
                            w * SUBPIXELS,
                            h * SUBPIXELS,
                        )
                        &&& self.particles@[j].traces@ == trail_step(
                            mid[j].traces@,
                            self.particles@[j].position(),
                            traces_on,
                        )
                    },
            decreases mid.len() - k,
        {
            self.particles[k].update(real_dt, w, h, traces_on);
            k = k + 1;
        }
        assert forall|j: int| 0 <= j < mid.len() implies bodies(mid)[j] == mid[j].body_view() by {}
    }

    /// Applies a command from the driver.
    pub fn handle_event(&mut self, ctx: &mut GlobalContext, cmd: Command)
        requires
            old(self).wf(),
            old(ctx).wf(),
        ensures
            final(self).wf(),
            final(ctx).wf(),
            final(self).grid == old(self).grid,
            final(ctx).screen_width == old(ctx).screen_width,
            final(ctx).screen_height == old(ctx).screen_height,
            final(self).done == (old(self).done || cmd == Command::Exit),
            final(self).enable_traces == (old(self).enable_traces != (cmd == Command::ToggleTraces)),
            final(ctx).paused == (old(ctx).paused != (cmd == Command::TogglePause)),
            final(ctx).simulation_speed == match cmd {
                Command::AdjustSpeed(d) => clamp_to(old(ctx).simulation_speed + d, MAX_SPEED as int),
                Command::SetSpeed(v) => clamp_to(v as int, MAX_SPEED as int),
                _ => old(ctx).simulation_speed as int,
            },
            match cmd {
                Command::ClearParticles => final(self).particles@.len() == 0,
                Command::Spawn(n) => if old(ctx).screen_width > 0 && old(ctx).screen_height > 0 {
                    &&& final(self).particles@.len() == old(self).particles@.len() + n
                    &&& final(self).particles@.take(old(self).particles@.len() as int)
                        == old(self).particles@
                    &&& forall|j: int|
                        old(self).particles@.len() <= j < final(self).particles@.len()
                            ==> freshly_spawned(
                            #[trigger] final(self).particles@[j],
                            old(ctx).screen_width as int,
                            old(ctx).screen_height as int,
                        )
                } else {
                    final(self).particles == old(self).particles
                },
                _ => final(self).particles == old(self).particles,
            },
    {
        match cmd {
            Command::Exit => {
                self.done = true;
            },
            Command::TogglePause => {
                ctx.toggle_pause();
            },
            Command::AdjustSpeed(d) => {
                ctx.adjust_speed(d);
            },
            Command::SetSpeed(v) => {
                ctx.set_speed(v);
            },
            Command::ToggleTraces => {
                self.enable_traces = !self.enable_traces;
            },
            Command::Spawn(n) => {
                let ghost start = self.particles@;
                let mut i: u32 = 0;
                while i < n
                    invariant
                        self.wf(),
                        ctx.wf(),
                        *ctx == *old(ctx),
                        self.grid == old(self).grid,
                        self.done == old(self).done,
                        self.enable_traces == old(self).enable_traces,
                        start == old(self).particles@,
                        i <= n,
                        ctx.screen_width > 0 && ctx.screen_height > 0 ==> {
                            &&& self.particles@.len() == start.len() + i
                            &&& self.particles@.take(start.len() as int) == start
                            &&& forall|j: int|
                                start.len() <= j < self.particles@.len() ==> freshly_spawned(
                                    #[trigger] self.particles@[j],
                                    ctx.screen_width as int,
                                    ctx.screen_height as int,
                                )
                        },
                        ctx.screen_width == 0 || ctx.screen_height == 0 ==> self.particles
                            == old(self).particles,
                    decreases n - i,
                {
                    let ghost before = self.particles@;
                    self.spawn_particle(ctx);
                    proof {
                        if ctx.screen_width > 0 && ctx.screen_height > 0 {
                            assert(self.particles@.take(start.len() as int) =~= before.take(
                                start.len() as int,
                            ));
                            assert forall|j: int|
                                start.len() <= j < self.particles@.len() implies freshly_spawned(
                                #[trigger] self.particles@[j],
                                ctx.screen_width as int,
                                ctx.screen_height as int,
                            ) by {
                                if j < before.len() {
                                    assert(self.particles@[j] == self.particles@.drop_last()[j]);
                                }
                            }
                        }
                    }
                    i = i + 1;
                }
            },
            Command::ClearParticles => {
                self.particles = Vec::new();
            },
            Command::ResetCursor => {},
        }
    }

    pub fn is_done(&self) -> (r: bool)
        ensures
            r == self.done,
    {
        self.done
    }
}

} // verus!
