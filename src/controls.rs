//! The caller's controls over the running simulation: pause, speeds and
//! integration scheme, changed one command at a time between frames.
use crate::pipeline::{frame_phases, Frame, Integrator};
use crate::resources::{lowered, raised, PredictionSpeed, SimSpeed};
use vstd::prelude::*;

verus! {

/// A change the caller asks for between frames.
#[derive(Clone, Copy, Debug, PartialEq, Eq, Structural)]
pub enum Command {
    TogglePause,
    SlowerSim,
    FasterSim,
    SlowerPrediction,
    FasterPrediction,
    ToggleIntegrator,
    /// Any other input: it changes no setting of its own.
    Other,
}

/// The settings that decide what a frame runs.
#[derive(Clone, Copy, Debug, PartialEq, Eq, Structural)]
pub struct Controls {
    pub paused: bool,
    pub sim_speed: SimSpeed,
    pub prediction_speed: PredictionSpeed,
    pub integrator: Integrator,
}

impl Controls {
    /// Running, one tick per frame, one preview tick, velocity Verlet.
    pub fn new() -> (c: Controls)
        ensures
            !c.paused,
            c.sim_speed.0 == 1,
            c.prediction_speed.0 == 1,
            c.integrator == Integrator::Verlet,
    {
        Controls {
            paused: false,
            sim_speed: SimSpeed(1),
            prediction_speed: PredictionSpeed(1),
            integrator: Integrator::Verlet,
        }
    }

    /// Applies one command. Whatever the command, unless it set the preview
    /// speed itself, the preview speed is then raised to the simulation
    /// speed if it lags behind.
    pub fn apply(&mut self, c: Command)
        ensures
            final(self).paused == (old(self).paused != (c == Command::TogglePause)),
            final(self).sim_speed.0 == match c {
                Command::SlowerSim => lowered(old(self).sim_speed.0),
                Command::FasterSim => raised(old(self).sim_speed.0),
                _ => old(self).sim_speed.0,
            },
            final(self).prediction_speed.0 == match c {
                Command::SlowerPrediction => lowered(old(self).prediction_speed.0),
                Command::FasterPrediction => raised(old(self).prediction_speed.0),
                _ => if old(self).prediction_speed.0 < final(self).sim_speed.0 {
                    final(self).sim_speed.0
                } else {
                    old(self).prediction_speed.0
                },
            },
            final(self).integrator == if c == Command::ToggleIntegrator {
                old(self).integrator.toggled_spec()
            } else {
                old(self).integrator
            },
    {
        match c {
            Command::TogglePause => self.paused = !self.paused,
            Command::SlowerSim => self.sim_speed = self.sim_speed.slower(),
            Command::FasterSim => self.sim_speed = self.sim_speed.faster(),
            Command::ToggleIntegrator => self.integrator = self.integrator.toggled(),
            _ => {},
        }
        self.prediction_speed = match c {
            Command::SlowerPrediction => self.prediction_speed.slower(),
            Command::FasterPrediction => self.prediction_speed.faster(),
            _ => self.prediction_speed.at_least(self.sim_speed),
        };
    }

    /// The phases of the next frame: one tick per unit of simulation speed,
    /// with the current scheme, or nothing while paused.
    pub fn frame(&self) -> (f: Frame)
        ensures
            f.remaining() == if self.paused {
                Seq::empty()
            } else {
                frame_phases(self.integrator, self.sim_speed.0 as nat)
            },
    {
        Frame::new(self.paused, self.sim_speed.0, self.integrator)
    }
}

} // verus!
