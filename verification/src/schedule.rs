//! The sampler's cycle: sample, then wait a fixed period, for ever.

use vstd::prelude::*;

verus! {

/// The seconds between the end of one sample and the start of the next.
pub const PERIOD_SECONDS: u64 = 60;

/// Where the sampler stands in its cycle.
#[derive(Clone, Copy, Debug, PartialEq, Eq, Structural)]
pub enum Phase {
    /// A sample is due: read the sources, encode, emit.
    Sampling,
    /// The sample has gone out and the period runs.
    Waiting,
}

/// What the driver of the cycle does in a phase.
#[derive(Clone, Copy, Debug, PartialEq, Eq, Structural)]
pub enum Action {
    /// Take one sample and send its datagram.
    Sample,
    /// Sleep for so many seconds.
    Wait { seconds: u64 },
}

impl Phase {
    /// The phase that follows this one.
    pub open spec fn successor(self) -> Phase {
        match self {
            Phase::Sampling => Phase::Waiting,
            Phase::Waiting => Phase::Sampling,
        }
    }

    /// What is to be done in this phase. The wait is the same in every cycle,
    /// however long the sample before it took.
    pub open spec fn duty(self) -> Action {
        match self {
            Phase::Sampling => Action::Sample,
            Phase::Waiting => Action::Wait { seconds: PERIOD_SECONDS },
        }
    }

    /// The phase in which the cycle starts: the baselines are in place and the
    /// first sample is due.
    pub fn start() -> (phase: Phase)
        ensures
            phase == Phase::Sampling,
    {
        Phase::Sampling
    }

    /// What the driver does now.
    pub fn action(self) -> (action: Action)
        ensures
            action == self.duty(),
    {
        match self {
            Phase::Sampling => Action::Sample,
            Phase::Waiting => Action::Wait { seconds: PERIOD_SECONDS },
        }
    }

    /// Moves on once the action of this phase is done.
    pub fn next(self) -> (phase: Phase)
        ensures
            phase == self.successor(),
    {
        match self {
            Phase::Sampling => Phase::Waiting,
            Phase::Waiting => Phase::Sampling,
        }
    }
}

/// The phase reached from `phase` after `steps` actions.
pub open spec fn phase_after(phase: Phase, steps: nat) -> Phase
    decreases steps,
{
    if steps == 0 {
        phase
    } else {
        phase_after(phase, (steps - 1) as nat).successor()
    }
}

/// The cycle has no end and no third state: from its start, every even step
/// is a sample and every odd step is a wait of the one fixed period.
pub proof fn lemma_cycle_alternates(steps: nat)
    ensures
        steps % 2 == 0 ==> phase_after(Phase::Sampling, steps).duty() == Action::Sample,
        steps % 2 == 1 ==> phase_after(Phase::Sampling, steps).duty() == (Action::Wait {
            seconds: 60,
        }),
    decreases steps,
{
    if steps > 0 {
        lemma_cycle_alternates((steps - 1) as nat);
    }
}

} // verus!
