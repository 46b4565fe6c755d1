use vstd::prelude::*;
use crate::math::{clamp_to, div_toward_zero, saturate, tdiv};
use crate::particle::{MAX_SCREEN, MAX_STEP};

verus! {

/// Largest magnitude of the simulation speed, in tenths.
pub const MAX_SPEED: i64 = 1_000_000;

/// What the driver feeds a scene between frames.
#[derive(Clone, Copy, Debug, PartialEq, Eq, Structural)]
pub enum Command {
    /// Ends the scene.
    Exit,
    /// Stops or resumes the simulation.
    TogglePause,
    /// Changes the speed by the given number of tenths.
    AdjustSpeed(i64),
    /// Sets the speed, in tenths.
    SetSpeed(i64),
    /// Turns particle trails on or off.
    ToggleTraces,
    /// Adds the given number of particles at random places.
    Spawn(u32),
    /// Removes every particle.
    ClearParticles,
    /// Puts a playback cursor back at its first sample.
    ResetCursor,
}

/// State shared by the driver and the scenes.
pub struct GlobalContext {
    /// Playback speed in tenths: 10 is real time, negative values are allowed.
    pub simulation_speed: i64,
    pub paused: bool,
    pub screen_width: u32,
    pub screen_height: u32,
}

impl GlobalContext {
    pub open spec fn wf(&self) -> bool {
        &&& -MAX_SPEED <= self.simulation_speed <= MAX_SPEED
        &&& self.screen_width <= MAX_SCREEN
        &&& self.screen_height <= MAX_SCREEN
    }

    /// A running context at real-time speed.
    pub fn new(screen_width: u32, screen_height: u32) -> (c: Self)
        requires
            screen_width <= MAX_SCREEN,
            screen_height <= MAX_SCREEN,
        ensures
            c.wf(),
            c.simulation_speed == 10,
            !c.paused,
            c.screen_width == screen_width,
            c.screen_height == screen_height,
    {
        GlobalContext { simulation_speed: 10, paused: false, screen_width, screen_height }
    }

    /// Adds `delta` tenths to the speed, saturating at `MAX_SPEED`.
    pub fn adjust_speed(&mut self, delta: i64)
        requires
            old(self).wf(),
        ensures
            final(self).wf(),
            final(self).simulation_speed == clamp_to(
                old(self).simulation_speed + delta,
                MAX_SPEED as int,
            ),
            final(self).paused == old(self).paused,
            final(self).screen_width == old(self).screen_width,
            final(self).screen_height == old(self).screen_height,
    {
        self.simulation_speed = saturate(self.simulation_speed as i128 + delta as i128, MAX_SPEED);
    }

    /// Sets the speed to `value` tenths, saturating at `MAX_SPEED`.
    pub fn set_speed(&mut self, value: i64)
        requires
            old(self).wf(),
        ensures
            final(self).wf(),
            final(self).simulation_speed == clamp_to(value as int, MAX_SPEED as int),
            final(self).paused == old(self).paused,
            final(self).screen_width == old(self).screen_width,
            final(self).screen_height == old(self).screen_height,
    {
        self.simulation_speed = saturate(value as i128, MAX_SPEED);
    }

    pub fn toggle_pause(&mut self)
        ensures
            final(self).paused == !old(self).paused,
            final(self).simulation_speed == old(self).simulation_speed,
            final(self).screen_width == old(self).screen_width,
            final(self).screen_height == old(self).screen_height,
    {
        self.paused = !self.paused;
    }

    pub open spec fn scaled_step_spec(&self, dt: int) -> int {
        clamp_to(tdiv(dt * self.simulation_speed, 10), MAX_STEP as int)
    }

    /// Simulated time for `dt` microseconds of real time at the current speed.
    pub fn scaled_step(&self, dt: i64) -> (r: i64)
        requires
            self.wf(),
        ensures
            r == self.scaled_step_spec(dt as int),
            -MAX_STEP <= r <= MAX_STEP,
    {
        let a = dt as i128;
        let b = self.simulation_speed as i128;
        assert(-0x8000_0000_0000_0000 * MAX_SPEED <= a * b <= 0x8000_0000_0000_0000 * MAX_SPEED)
            by (nonlinear_arith)
            requires -MAX_SPEED <= b <= MAX_SPEED, -0x8000_0000_0000_0000 <= a <= 0x8000_0000_0000_0000;
        let p = a * b;
        saturate(div_toward_zero(p, 10), MAX_STEP)
    }
}

} // verus!
