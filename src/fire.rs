use vstd::prelude::*;
use crate::error::Error;
use crate::triggered::{Lease, TriggerSet};

verus! {

/// What to do with a pin's triggered mark once its activation is over.
#[derive(Debug, Clone, Copy, PartialEq, Eq, Structural)]
pub enum RetriggerPolicy {
    /// The mark is cleared after the hold, so the pin can be fired again.
    Release,
    /// The mark stays: a pin fires at most once for the life of the process.
    SingleShot,
}

/// The hardware work an activation asks its driver to do next.
#[derive(Debug, Clone, Copy, PartialEq, Eq, Structural)]
pub enum Step {
    /// Take hold of the output line of the pin.
    AcquireLine(u8),
    /// Drive the line to its active level.
    SetHigh(u8),
    /// Wait this many seconds with the line active.
    Hold(u8),
    /// Drive the line back to its inactive level.
    SetLow(u8),
}

/// How the step that the driver last performed went.
#[derive(Debug, Clone, Copy, PartialEq, Eq, Structural)]
pub enum StepOutcome {
    Done,
    Failed,
}

/// Where an activation stands.
#[derive(Debug, Clone, Copy, PartialEq, Eq, Structural)]
pub enum Phase {
    Acquiring,
    Raising,
    Holding,
    Lowering,
}

/// One activation of a pin between taking its trigger lease and giving it
/// back: acquire the line, raise it, hold it, lower it.
///
/// The hold length is read once, when the activation starts; a later change
/// of the configured duration does not reach it.
#[derive(Debug)]
pub struct Activation {
    lease: Lease,
    hold_secs: u8,
    phase: Phase,
}

/// The result of feeding a step's outcome to an activation.
#[derive(Debug)]
pub enum Progress {
    /// There is more hardware work to do.
    Continue(Activation),
    /// The activation is over: give the lease back and report the result.
    Finished(Lease, Result<(), Error>),
}

/// Decides whether a fire of `pin` may start, given whether the roster
/// holds it: an unknown pin is refused before the trigger set is even
/// looked at, a pin in flight is refused, and otherwise the pin is marked
/// triggered and its activation starts with a hold of `hold_secs`.
pub fn begin_activation(
    enrolled: bool,
    triggered: &mut TriggerSet,
    pin: u8,
    hold_secs: u8,
) -> (r: Result<Activation, Error>)
    requires
        old(triggered).wf(),
    ensures
        final(triggered).wf(),
        !enrolled ==> r == Err::<Activation, Error>(Error::UnknownPin(pin)) && final(triggered)@
            == old(triggered)@,
        enrolled && old(triggered)@.contains(pin) ==> r == Err::<Activation, Error>(
            Error::AlreadyTriggered(pin),
        ) && final(triggered)@ == old(triggered)@,
        enrolled && !old(triggered)@.contains(pin) ==> {
            &&& r is Ok
            &&& r->Ok_0.spec_pin() == pin
            &&& r->Ok_0.spec_hold_secs() == hold_secs
            &&& r->Ok_0.spec_phase() == Phase::Acquiring
            &&& final(triggered)@ == old(triggered)@.push(pin)
        },
{
    if !enrolled {
        return Err(Error::UnknownPin(pin));
    }
    match triggered.begin(pin) {
        Ok(lease) => Ok(Activation::new(lease, hold_secs)),
        Err(e) => Err(e),
    }
}

/// Settles the lease of a finished activation: given back under
/// [`RetriggerPolicy::Release`], kept under [`RetriggerPolicy::SingleShot`].
pub fn settle(triggered: &mut TriggerSet, lease: Lease, policy: RetriggerPolicy)
    requires
        old(triggered).wf(),
    ensures
        final(triggered).wf(),
        policy == RetriggerPolicy::Release ==> final(triggered)@.to_set() == old(
            triggered,
        )@.to_set().remove(lease.spec_pin()),
        policy == RetriggerPolicy::SingleShot ==> final(triggered)@ == old(triggered)@,
{
    match policy {
        RetriggerPolicy::Release => triggered.end(lease),
        RetriggerPolicy::SingleShot => {},
    }
}

/// The step asked for in a phase.
pub open spec fn step_of(pin: u8, hold_secs: u8, phase: Phase) -> Step {
    match phase {
        Phase::Acquiring => Step::AcquireLine(pin),
        Phase::Raising => Step::SetHigh(pin),
        Phase::Holding => Step::Hold(hold_secs),
        Phase::Lowering => Step::SetLow(pin),
    }
}

/// The phase that follows a step that went through, or `None` when the
/// activation is then over.
pub open spec fn next_phase(phase: Phase) -> Option<Phase> {
    match phase {
        Phase::Acquiring => Some(Phase::Raising),
        Phase::Raising => Some(Phase::Holding),
        Phase::Holding => Some(Phase::Lowering),
        Phase::Lowering => None,
    }
}

impl Activation {
    pub closed spec fn spec_pin(&self) -> u8 {
        self.lease.spec_pin()
    }

    pub closed spec fn spec_hold_secs(&self) -> u8 {
        self.hold_secs
    }

    pub closed spec fn spec_phase(&self) -> Phase {
        self.phase
    }

    /// Starts an activation under `lease` that will hold the line for
    /// `hold_secs` seconds.
    pub fn new(lease: Lease, hold_secs: u8) -> (r: Activation)
        ensures
            r.spec_pin() == lease.spec_pin(),
            r.spec_hold_secs() == hold_secs,
            r.spec_phase() == Phase::Acquiring,
    {
        Activation { lease, hold_secs, phase: Phase::Acquiring }
    }

    /// The pin being activated.
    pub fn pin(&self) -> (r: u8)
        ensures
            r == self.spec_pin(),
    {
        self.lease.pin()
    }

    /// How long the line is held active.
    pub fn hold_secs(&self) -> (r: u8)
        ensures
            r == self.spec_hold_secs(),
    {
        self.hold_secs
    }

    /// Where the activation stands.
    pub fn phase(&self) -> (r: Phase)
        ensures
            r == self.spec_phase(),
    {
        self.phase
    }

    /// The hardware work to do now.
    pub fn step(&self) -> (r: Step)
        ensures
            r == step_of(self.spec_pin(), self.spec_hold_secs(), self.spec_phase()),
    {
        let pin = self.lease.pin();
        match self.phase {
            Phase::Acquiring => Step::AcquireLine(pin),
            Phase::Raising => Step::SetHigh(pin),
            Phase::Holding => Step::Hold(self.hold_secs),
            Phase::Lowering => Step::SetLow(pin),
        }
    }

    /// Moves on once the current step has been performed.
    ///
    /// A failure to acquire or raise the line ends the activation with a
    /// hardware fault. The hold always ends in lowering the line, even when
    /// the wait was cut short. A failure to lower the line is reported, but
    /// the activation is over all the same.
    pub fn advance(self, outcome: StepOutcome) -> (r: Progress)
        ensures
            match r {
                Progress::Continue(a) => {
                    &&& a.spec_pin() == self.spec_pin()
                    &&& a.spec_hold_secs() == self.spec_hold_secs()
                    &&& (outcome == StepOutcome::Done || self.spec_phase() == Phase::Holding)
                    &&& next_phase(self.spec_phase()) == Some(a.spec_phase())
                },
                Progress::Finished(lease, res) => {
                    &&& lease.spec_pin() == self.spec_pin()
                    &&& (outcome == StepOutcome::Done ==> self.spec_phase() == Phase::Lowering
                        && res is Ok)
                    &&& (outcome == StepOutcome::Failed ==> self.spec_phase() != Phase::Holding
                        && res == Err::<(), Error>(Error::HardwareFault(self.spec_pin())))
                },
            },
    {
        let pin = self.lease.pin();
        let Activation { lease, hold_secs, phase } = self;
        match (phase, outcome) {
            (Phase::Acquiring, StepOutcome::Done) => Progress::Continue(
                Activation { lease, hold_secs, phase: Phase::Raising },
            ),
            (Phase::Raising, StepOutcome::Done) => Progress::Continue(
                Activation { lease, hold_secs, phase: Phase::Holding },
            ),
            (Phase::Holding, _) => Progress::Continue(
                Activation { lease, hold_secs, phase: Phase::Lowering },
            ),
            (Phase::Lowering, StepOutcome::Done) => Progress::Finished(lease, Ok(())),
            (_, StepOutcome::Failed) => Progress::Finished(lease, Err(Error::HardwareFault(pin))),
        }
    }
}

/// An activation whose every step goes through asks, in order, to acquire
/// the line, raise it, hold it for the duration read at its start, and lower
/// it, and then it is over.
pub proof fn lemma_clean_activation_steps(pin: u8, hold_secs: u8)
    ensures
        step_of(pin, hold_secs, Phase::Acquiring) == Step::AcquireLine(pin),
        next_phase(Phase::Acquiring) == Some(Phase::Raising),
        step_of(pin, hold_secs, Phase::Raising) == Step::SetHigh(pin),
        next_phase(Phase::Raising) == Some(Phase::Holding),
        step_of(pin, hold_secs, Phase::Holding) == Step::Hold(hold_secs),
        next_phase(Phase::Holding) == Some(Phase::Lowering),
        step_of(pin, hold_secs, Phase::Lowering) == Step::SetLow(pin),
        next_phase(Phase::Lowering) == None::<Phase>,
{
}

} // verus!
