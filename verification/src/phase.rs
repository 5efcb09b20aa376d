//! The course of one iteration: proposal, validation, ratification, each
//! with a timeout.

use vstd::prelude::*;
use crate::commons::TimeoutSet;
use crate::config::{CONSENSUS_MAX_ITER, MAX_STEP_TIMEOUT};
use crate::message::StepName;

verus! {

/// Where an iteration stands.
#[derive(Clone, Copy, Debug, PartialEq, Eq, Structural)]
pub enum Phase {
    Idle,
    AwaitProposal,
    AwaitValidation,
    AwaitRatification,
    /// The iteration produced an attested block.
    Done,
    /// The iteration with this number ran out of time in one of its steps.
    Timeout(u8),
}

/// What can happen to an iteration.
#[derive(Clone, Copy, Debug, PartialEq, Eq, Structural)]
pub enum PhaseEvent {
    /// The iteration is started.
    Start,
    /// The step that is awaited gave its output.
    StepReady,
    /// The step that is awaited ran out of time.
    StepTimeout,
}

impl Phase {
    /// The step that is awaited, if one is.
    pub open spec fn spec_step(self) -> Option<StepName> {
        match self {
            Phase::AwaitProposal => Some(StepName::Proposal),
            Phase::AwaitValidation => Some(StepName::Validation),
            Phase::AwaitRatification => Some(StepName::Ratification),
            _ => None,
        }
    }

    pub fn step(&self) -> (s: Option<StepName>)
        ensures
            s == self.spec_step(),
    {
        match self {
            Phase::AwaitProposal => Some(StepName::Proposal),
            Phase::AwaitValidation => Some(StepName::Validation),
            Phase::AwaitRatification => Some(StepName::Ratification),
            _ => None,
        }
    }

    /// Where the iteration `iteration` stands after `event`. The steps
    /// follow one another in their order; a step that runs out of time ends
    /// the iteration. An event that does not fit the phase changes nothing.
    pub open spec fn spec_next(self, event: PhaseEvent, iteration: u8) -> Phase {
        match (self, event) {
            (Phase::Idle, PhaseEvent::Start) => Phase::AwaitProposal,
            (Phase::AwaitProposal, PhaseEvent::StepReady) => Phase::AwaitValidation,
            (Phase::AwaitValidation, PhaseEvent::StepReady) => Phase::AwaitRatification,
            (Phase::AwaitRatification, PhaseEvent::StepReady) => Phase::Done,
            (Phase::AwaitProposal, PhaseEvent::StepTimeout) => Phase::Timeout(iteration),
            (Phase::AwaitValidation, PhaseEvent::StepTimeout) => Phase::Timeout(iteration),
            (Phase::AwaitRatification, PhaseEvent::StepTimeout) => Phase::Timeout(iteration),
            _ => self,
        }
    }

    pub fn next(self, event: PhaseEvent, iteration: u8) -> (p: Phase)
        ensures
            p == self.spec_next(event, iteration),
    {
        match (self, event) {
            (Phase::Idle, PhaseEvent::Start) => Phase::AwaitProposal,
            (Phase::AwaitProposal, PhaseEvent::StepReady) => Phase::AwaitValidation,
            (Phase::AwaitValidation, PhaseEvent::StepReady) => Phase::AwaitRatification,
            (Phase::AwaitRatification, PhaseEvent::StepReady) => Phase::Done,
            (Phase::AwaitProposal, PhaseEvent::StepTimeout) => Phase::Timeout(iteration),
            (Phase::AwaitValidation, PhaseEvent::StepTimeout) => Phase::Timeout(iteration),
            (Phase::AwaitRatification, PhaseEvent::StepTimeout) => Phase::Timeout(iteration),
            (p, _) => p,
        }
    }
}

/// `timeout` doubled, but no longer than the longest timeout.
pub open spec fn spec_doubled(timeout: u64) -> u64 {
    if 2 * timeout > MAX_STEP_TIMEOUT {
        MAX_STEP_TIMEOUT
    } else {
        (2 * timeout) as u64
    }
}

/// The timeouts after `step` ran out of time: its own is doubled.
pub open spec fn spec_timeouts_after(timeouts: TimeoutSet, step: StepName) -> TimeoutSet {
    match step {
        StepName::Proposal => TimeoutSet { proposal: spec_doubled(timeouts.proposal), ..timeouts },
        StepName::Validation => TimeoutSet {
            validation: spec_doubled(timeouts.validation),
            ..timeouts
        },
        StepName::Ratification => TimeoutSet {
            ratification: spec_doubled(timeouts.ratification),
            ..timeouts
        },
    }
}

/// The iteration that a round is in, where it stands, and the timeouts of
/// its steps.
#[derive(Clone, Copy, Debug, PartialEq, Eq, Structural)]
pub struct IterationCtx {
    pub iteration: u8,
    pub phase: Phase,
    pub timeouts: TimeoutSet,
}

impl IterationCtx {
    /// The first iteration of a round, not yet started.
    pub fn new(timeouts: TimeoutSet) -> (ctx: IterationCtx)
        ensures
            ctx == (IterationCtx { iteration: 0, phase: Phase::Idle, timeouts }),
    {
        IterationCtx { iteration: 0, phase: Phase::Idle, timeouts }
    }

    /// What `event` makes of the iteration. A step that runs out of time
    /// gets twice the time from then on.
    pub open spec fn spec_handle(self, event: PhaseEvent) -> IterationCtx {
        IterationCtx {
            iteration: self.iteration,
            phase: self.phase.spec_next(event, self.iteration),
            timeouts: match (self.phase.spec_step(), event) {
                (Some(step), PhaseEvent::StepTimeout) => spec_timeouts_after(self.timeouts, step),
                _ => self.timeouts,
            },
        }
    }

    pub fn handle(&mut self, event: PhaseEvent)
        ensures
            *final(self) == old(self).spec_handle(event),
    {
        match (self.phase.step(), event) {
            (Some(step), PhaseEvent::StepTimeout) => {
                let doubled = crate::chain::metrics::increase_timeout(self.timeouts.get(step));
                match step {
                    StepName::Proposal => {
                        self.timeouts.proposal = doubled;
                    },
                    StepName::Validation => {
                        self.timeouts.validation = doubled;
                    },
                    StepName::Ratification => {
                        self.timeouts.ratification = doubled;
                    },
                }
            },
            _ => {},
        }
        self.phase = self.phase.next(event, self.iteration);
    }

    /// Whether another iteration may follow one that timed out.
    pub open spec fn spec_can_advance(self) -> bool {
        self.phase is Timeout && self.iteration + 1 < CONSENSUS_MAX_ITER
    }

    /// Moves on to the next iteration after a timeout, and says whether it
    /// did: the round gives up after its last iteration.
    pub fn advance(&mut self) -> (advanced: bool)
        ensures
            advanced == old(self).spec_can_advance(),
            *final(self) == (if advanced {
                IterationCtx {
                    iteration: (old(self).iteration + 1) as u8,
                    phase: Phase::Idle,
                    timeouts: old(self).timeouts,
                }
            } else {
                *old(self)
            }),
    {
        match self.phase {
            Phase::Timeout(_) => {
                if self.iteration < CONSENSUS_MAX_ITER - 1 {
                    self.iteration = self.iteration + 1;
                    self.phase = Phase::Idle;
                    true
                } else {
                    false
                }
            },
            _ => false,
        }
    }
}

} // verus!
