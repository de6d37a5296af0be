//! The per-tick pipeline: forces, then integration, then collisions, then
//! trails, once per sub-step of a displayed frame.
use vstd::prelude::*;

verus! {

/// Numerical scheme that advances velocities and positions.
#[derive(Clone, Copy, Debug, PartialEq, Eq, Structural)]
pub enum Integrator {
    /// Semi-implicit Euler.
    Euler,
    /// Velocity Verlet.
    Verlet,
}

impl Integrator {
    /// The other scheme.
    pub open spec fn toggled_spec(self) -> Integrator {
        match self {
            Integrator::Euler => Integrator::Verlet,
            Integrator::Verlet => Integrator::Euler,
        }
    }

    /// The other scheme.
    pub fn toggled(self) -> (r: Integrator)
        ensures
            r == self.toggled_spec(),
            r != self,
    {
        match self {
            Integrator::Euler => Integrator::Verlet,
            Integrator::Verlet => Integrator::Euler,
        }
    }
}

/// One phase of a tick.
#[derive(Clone, Copy, Debug, PartialEq, Eq, Structural)]
pub enum Phase {
    /// Every body's acceleration and collision target, from one snapshot.
    Forces,
    /// Every body's velocity and position, all with the given scheme.
    Integrate(Integrator),
    /// Merging of the colliding pairs.
    Collide,
    /// Recording of every surviving body's position in its trail.
    Trails,
}

/// The phases of one tick, in order.
pub open spec fn tick_phases(m: Integrator) -> Seq<Phase> {
    seq![Phase::Forces, Phase::Integrate(m), Phase::Collide, Phase::Trails]
}

/// The phases of `ticks` ticks, one after the other.
pub open spec fn frame_phases(m: Integrator, ticks: nat) -> Seq<Phase>
    decreases ticks,
{
    if ticks == 0 {
        Seq::empty()
    } else {
        frame_phases(m, (ticks - 1) as nat) + tick_phases(m)
    }
}

/// The phases that one displayed frame still has to run.
pub struct Frame {
    ticks_left: u32,
    at: u8,
    method: Integrator,
}

impl Frame {
    #[verifier::type_invariant]
    spec fn inv(self) -> bool {
        self.at < 4
    }

    /// What is left to run, in order.
    pub closed spec fn remaining(self) -> Seq<Phase> {
        if self.ticks_left == 0 {
            Seq::empty()
        } else {
            tick_phases(self.method).subrange(self.at as int, 4) + frame_phases(
                self.method,
                (self.ticks_left - 1) as nat,
            )
        }
    }

    /// A frame of `substeps` ticks with scheme `method`; nothing to run
    /// while the simulation is paused.
    pub fn new(paused: bool, substeps: u32, method: Integrator) -> (f: Frame)
        ensures
            f.remaining() == if paused {
                Seq::empty()
            } else {
                frame_phases(method, substeps as nat)
            },
    {
        let f = Frame { ticks_left: if paused { 0 } else { substeps }, at: 0, method };
        proof {
            if !paused && substeps > 0 {
                lemma_frame_phases_front(method, substeps as nat);
            }
        }
        f
    }

    /// The next phase to run, or `None` once the frame is done.
    pub fn next_phase(&mut self) -> (r: Option<Phase>)
        ensures
            old(self).remaining().len() == 0 ==> r is None && final(self).remaining() == old(
                self,
            ).remaining(),
            old(self).remaining().len() > 0 ==> r == Some(old(self).remaining()[0])
                && final(self).remaining() == old(self).remaining().drop_first(),
    {
        proof {
            use_type_invariant(&*self);
        }
        if self.ticks_left == 0 {
            return None;
        }
        let ghost before = self.remaining();
        let p = match self.at {
            0 => Phase::Forces,
            1 => Phase::Integrate(self.method),
            2 => Phase::Collide,
            _ => Phase::Trails,
        };
        if self.at == 3 {
            self.at = 0;
            self.ticks_left = self.ticks_left - 1;
            proof {
                if self.ticks_left > 0 {
                    lemma_frame_phases_front(self.method, self.ticks_left as nat);
                }
                assert(before =~= seq![Phase::Trails] + frame_phases(
                    self.method,
                    self.ticks_left as nat,
                ));
                assert(self.remaining() =~= before.drop_first());
            }
        } else {
            self.at = self.at + 1;
            proof {
                assert(self.remaining() =~= before.drop_first());
            }
        }
        Some(p)
    }
}

/// `ticks` ticks start with one whole tick, followed by the other
/// `ticks - 1`.
proof fn lemma_frame_phases_front(m: Integrator, ticks: nat)
    requires
        ticks > 0,
    ensures
        frame_phases(m, ticks) == tick_phases(m) + frame_phases(m, (ticks - 1) as nat),
    decreases ticks,
{
    if ticks == 1 {
        assert(frame_phases(m, 0) + tick_phases(m) =~= tick_phases(m));
        assert(tick_phases(m) + frame_phases(m, 0) =~= tick_phases(m));
    } else {
        lemma_frame_phases_front(m, (ticks - 1) as nat);
        assert(frame_phases(m, ticks) =~= tick_phases(m) + frame_phases(m, (ticks - 1) as nat));
    }
}

/// A frame of `ticks` sub-steps runs `4 * ticks` phases: each tick is forces,
/// integration, collisions and trails, in that order, and every integration
/// of the frame uses the same scheme.
pub proof fn lemma_frame_order(m: Integrator, ticks: nat)
    ensures
        frame_phases(m, ticks).len() == 4 * ticks,
        forall|t: int, k: int|
            0 <= t < ticks && 0 <= k < 4 ==> #[trigger] frame_phases(m, ticks)[4 * t + k]
                == tick_phases(m)[k],
    decreases ticks,
{
    if ticks > 0 {
        let prev = frame_phases(m, (ticks - 1) as nat);
        lemma_frame_order(m, (ticks - 1) as nat);
        assert forall|t: int, k: int|
            0 <= t < ticks && 0 <= k < 4 implies #[trigger] frame_phases(m, ticks)[4 * t + k]
            == tick_phases(m)[k] by {
            if t < ticks - 1 {
                assert(frame_phases(m, ticks)[4 * t + k] == prev[4 * t + k]);
            }
        }
    }
}

} // verus!
