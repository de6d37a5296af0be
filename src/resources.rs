//! Integer settings of the simulation that the caller tunes between frames.
use vstd::prelude::*;

verus! {

/// How many ticks a preview body is advanced per frame.
#[derive(Clone, Copy, Debug, PartialEq, Eq, Structural)]
pub struct PredictionSpeed(pub u32);

/// How many ticks the simulation runs per displayed frame.
#[derive(Clone, Copy, Debug, PartialEq, Eq, Structural)]
pub struct SimSpeed(pub u32);

/// Upper bound on the number of preview ticks.
#[derive(Clone, Copy, Debug, PartialEq, Eq, Structural)]
pub struct MaxPredictions(pub u32);

/// Preview ticks run so far.
#[derive(Clone, Copy, Debug, PartialEq, Eq, Structural)]
pub struct CurrentPredictions(pub u32);

impl Default for PredictionSpeed {
    fn default() -> (r: Self)
        ensures
            r.0 == 0,
    {
        PredictionSpeed(0)
    }
}

impl Default for SimSpeed {
    fn default() -> (r: Self)
        ensures
            r.0 == 0,
    {
        SimSpeed(0)
    }
}

impl Default for MaxPredictions {
    fn default() -> (r: Self)
        ensures
            r.0 == 0,
    {
        MaxPredictions(0)
    }
}

impl Default for CurrentPredictions {
    fn default() -> (r: Self)
        ensures
            r.0 == 0,
    {
        CurrentPredictions(0)
    }
}

/// One less, but never below one.
pub open spec fn lowered(v: u32) -> u32 {
    if v > 1 {
        (v - 1) as u32
    } else {
        v
    }
}

/// One more, but never past the largest `u32`.
pub open spec fn raised(v: u32) -> u32 {
    if v < u32::MAX {
        (v + 1) as u32
    } else {
        v
    }
}

impl SimSpeed {
    /// One tick less per frame, keeping at least one.
    pub fn slower(self) -> (r: SimSpeed)
        ensures
            r.0 == lowered(self.0),
    {
        if self.0 > 1 {
            SimSpeed(self.0 - 1)
        } else {
            self
        }
    }

    /// One tick more per frame.
    pub fn faster(self) -> (r: SimSpeed)
        ensures
            r.0 == raised(self.0),
    {
        SimSpeed(self.0.saturating_add(1))
    }
}

impl PredictionSpeed {
    /// One preview tick less per frame, keeping at least one.
    pub fn slower(self) -> (r: PredictionSpeed)
        ensures
            r.0 == lowered(self.0),
    {
        if self.0 > 1 {
            PredictionSpeed(self.0 - 1)
        } else {
            self
        }
    }

    /// One preview tick more per frame.
    pub fn faster(self) -> (r: PredictionSpeed)
        ensures
            r.0 == raised(self.0),
    {
        PredictionSpeed(self.0.saturating_add(1))
    }

    /// Raised to the simulation speed when it lags behind it: a preview
    /// never runs fewer ticks than the simulation.
    pub fn at_least(self, sim: SimSpeed) -> (r: PredictionSpeed)
        ensures
            r.0 == if self.0 < sim.0 {
                sim.0
            } else {
                self.0
            },
    {
        if self.0 < sim.0 {
            PredictionSpeed(sim.0)
        } else {
            self
        }
    }

    /// Preview ticks run in a frame beyond the simulation's own: one for each
    /// value from the simulation speed up to this one.
    pub fn extra_ticks(self, sim: SimSpeed) -> (r: u32)
        ensures
            r == if self.0 > sim.0 {
                self.0 - sim.0
            } else {
                0
            },
    {
        if self.0 > sim.0 {
            self.0 - sim.0
        } else {
            0
        }
    }
}

} // verus!
