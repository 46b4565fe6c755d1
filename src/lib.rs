// A particle simulation with elastic collisions found through a uniform grid, and
// trajectories of ordinary differential equations solved ahead of time by fourth-order
// Runge-Kutta and played back.
//
// All real quantities are fixed-point integers: positions, radii and velocities of
// particles in thousandths of a pixel (`particle::SUBPIXELS`), time steps in
// microseconds, and trajectory values and times in billionths (`ode::ONE`).
use vstd::prelude::*;

pub mod math;
pub mod particle;
pub mod collision;
pub mod grid;
pub mod engine;
pub mod particle_collisions;
pub mod ode;
pub mod playback;
pub mod lorenz_attractor;
pub mod pendulum;

verus! {

} // verus!
