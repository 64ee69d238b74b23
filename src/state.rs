use vstd::prelude::*;
use crate::config::PinConfig;
use crate::error::Error;
use crate::fire::{
    Activation,
    Phase,
    Progress,
    RetriggerPolicy,
    StepOutcome,
    begin_activation,
    next_phase,
    settle,
};
use crate::roster::{PinRoster, enrolled_into, strictly_ascending, withdrawn_from};
use crate::triggered::{Lease, TriggerSet};

verus! {

/// What came of feeding a step's outcome to a running activation.
#[derive(Debug)]
pub enum FireProgress {
    /// The activation goes on.
    Continue(Activation),
    /// The activation is over, its lease handled as the policy says.
    Done(Result<(), Error>),
}

/// The whole runtime state: the roster, the trigger set, the hold duration
/// and the retrigger policy.
///
/// Every operation is a short step that never waits; whoever shares the
/// state between requests holds it under a lock for one call at a time and
/// never across the hold of an activation.
#[derive(Debug)]
pub struct AppState {
    pin_list: PinRoster,
    triggered: TriggerSet,
    duration: u8,
    policy: RetriggerPolicy,
}

impl AppState {
    /// The enrolled pins.
    pub closed spec fn pins(&self) -> Seq<u8> {
        self.pin_list@
    }

    /// The pins with an activation in flight.
    pub closed spec fn triggered_pins(&self) -> Seq<u8> {
        self.triggered@
    }

    /// The hold duration, in seconds, for activations that start now.
    pub closed spec fn spec_duration(&self) -> u8 {
        self.duration
    }

    pub closed spec fn spec_policy(&self) -> RetriggerPolicy {
        self.policy
    }

    /// Roster ascending without repeats, trigger set without repeats.
    pub open spec fn wf(&self) -> bool {
        strictly_ascending(self.pins()) && self.triggered_pins().no_duplicates()
    }

    /// `c` is a snapshot of exactly this state.
    pub open spec fn snapshot_of(&self, c: PinConfig) -> bool {
        &&& c.pins@ == self.pins()
        &&& c.triggered@ == self.triggered_pins()
        &&& c.duration == self.spec_duration()
    }

    /// The state to serve from, built from a loaded configuration: the
    /// configuration's pins, sorted without repeats, and its duration.
    ///
    /// Under [`RetriggerPolicy::Release`] no activation survives a restart,
    /// so the trigger set starts empty; under
    /// [`RetriggerPolicy::SingleShot`] the persisted lockouts are kept.
    pub fn new(config: &PinConfig, policy: RetriggerPolicy) -> (r: AppState)
        ensures
            r.wf(),
            r.pins().to_set() == config.pins@.to_set(),
            strictly_ascending(config.pins@) ==> r.pins() == config.pins@,
            policy == RetriggerPolicy::Release ==> r.triggered_pins() == Seq::<u8>::empty(),
            policy == RetriggerPolicy::SingleShot ==> r.triggered_pins().to_set()
                == config.triggered@.to_set() && (config.triggered@.no_duplicates()
                ==> r.triggered_pins() == config.triggered@),
            r.spec_duration() == config.duration,
            r.spec_policy() == policy,
    {
        let pin_list = PinRoster::from_pins(&config.pins);
        proof {
            if strictly_ascending(config.pins@) {
                crate::roster::lemma_ascending_unique(pin_list@, config.pins@);
            }
        }
        let triggered = match policy {
            RetriggerPolicy::Release => TriggerSet::new(),
            RetriggerPolicy::SingleShot => TriggerSet::from_pins(&config.triggered),
        };
        AppState { pin_list, triggered, duration: config.duration, policy }
    }

    /// The retrigger policy in force.
    pub fn policy(&self) -> (r: RetriggerPolicy)
        ensures
            r == self.spec_policy(),
    {
        self.policy
    }

    /// A copy of the enrolled pins, in ascending order.
    pub fn list(&self) -> (r: Vec<u8>)
        ensures
            r@ == self.pins(),
    {
        self.pin_list.list()
    }

    /// Succeeds exactly when `pin` is enrolled.
    pub fn check_pin(&self, pin: u8) -> (r: Result<(), Error>)
        ensures
            r == if self.pins().contains(pin) {
                Ok::<(), Error>(())
            } else {
                Err(Error::UnknownPin(pin))
            },
    {
        if self.pin_list.contains(pin) {
            Ok(())
        } else {
            Err(Error::UnknownPin(pin))
        }
    }

    /// Marks `pin` as triggered and hands out the lease of its activation,
    /// unless an activation of it is already in flight.
    pub fn trigger_pin(&mut self, pin: u8) -> (r: Result<Lease, Error>)
        requires
            old(self).wf(),
        ensures
            final(self).wf(),
            r is Ok <==> !old(self).triggered_pins().contains(pin),
            r is Ok ==> r->Ok_0.spec_pin() == pin && final(self).triggered_pins() == old(self).triggered_pins().push(pin),
            r is Err ==> r->Err_0 == Error::AlreadyTriggered(pin) && final(self).triggered_pins()
                == old(self).triggered_pins(),
            final(self).pins() == old(self).pins(),
            final(self).spec_duration() == old(self).spec_duration(),
            final(self).spec_policy() == old(self).spec_policy(),
    {
        self.triggered.begin(pin)
    }

    /// A snapshot of the roster, the trigger set and the duration, to report
    /// or to persist.
    pub fn to_pin_config(&self) -> (r: PinConfig)
        ensures
            self.snapshot_of(r),
            self.wf() ==> r.wf(),
    {
        PinConfig { pins: self.pin_list.list(), triggered: self.triggered.list(), duration: self.duration }
    }

    /// The hold duration that the next activation will use.
    pub fn duration(&self) -> (r: u8)
        ensures
            r == self.spec_duration(),
    {
        self.duration
    }

    /// Sets the hold duration, when one is given, for activations that start
    /// from now on, and returns a snapshot of the state to persist. Running
    /// activations keep the hold they started with.
    pub fn set_duration(&mut self, secs: Option<u8>) -> (r: PinConfig)
        ensures
            final(self).spec_duration() == match secs {
                Some(d) => d,
                None => old(self).spec_duration(),
            },
            final(self).pins() == old(self).pins(),
            final(self).triggered_pins() == old(self).triggered_pins(),
            final(self).spec_policy() == old(self).spec_policy(),
            final(self).snapshot_of(r),
    {
        match secs {
            Some(d) => {
                self.duration = d;
            },
            None => {},
        }
        self.to_pin_config()
    }

    /// Enrolls `pin` when it is not enrolled yet and the hardware can hand
    /// out its line, and returns a snapshot of the state after the change to
    /// persist. On failure nothing changes.
    pub fn enroll_pin(&mut self, pin: u8, line_available: bool) -> (r: Result<PinConfig, Error>)
        requires
            old(self).wf(),
        ensures
            final(self).wf(),
            r is Ok <==> !old(self).pins().contains(pin) && line_available,
            r is Err ==> r->Err_0 == if old(self).pins().contains(pin) {
                Error::AlreadyEnrolled(pin)
            } else {
                Error::HardwareFault(pin)
            },
            r is Ok ==> enrolled_into(old(self).pins(), pin, final(self).pins()) && final(self).snapshot_of(r->Ok_0),
            r is Err ==> final(self).pins() == old(self).pins(),
            final(self).triggered_pins() == old(self).triggered_pins(),
            final(self).spec_duration() == old(self).spec_duration(),
            final(self).spec_policy() == old(self).spec_policy(),
    {
        match self.pin_list.enroll_checked(pin, line_available) {
            Ok(()) => Ok(self.to_pin_config()),
            Err(e) => Err(e),
        }
    }

    /// Withdraws `pin` and returns a snapshot of the state after the change
    /// to persist. On failure nothing changes.
    pub fn withdraw_pin(&mut self, pin: u8) -> (r: Result<PinConfig, Error>)
        requires
            old(self).wf(),
        ensures
            final(self).wf(),
            r is Ok <==> old(self).pins().contains(pin),
            r is Err ==> r->Err_0 == Error::NotEnrolled(pin) && final(self).pins() == old(self).pins(),
            r is Ok ==> withdrawn_from(old(self).pins(), pin, final(self).pins()) && final(self).snapshot_of(r->Ok_0),
            final(self).triggered_pins() == old(self).triggered_pins(),
            final(self).spec_duration() == old(self).spec_duration(),
            final(self).spec_policy() == old(self).spec_policy(),
    {
        match self.pin_list.withdraw(pin) {
            Ok(()) => Ok(self.to_pin_config()),
            Err(e) => Err(e),
        }
    }

    /// Starts firing `pin`: it must be enrolled and not already in flight.
    /// The hold duration is read here, once. When this fails, no activation
    /// exists, so no hardware work is asked for.
    pub fn start_fire(&mut self, pin: u8) -> (r: Result<Activation, Error>)
        requires
            old(self).wf(),
        ensures
            final(self).wf(),
            !old(self).pins().contains(pin) ==> r == Err::<Activation, Error>(Error::UnknownPin(pin))
                && final(self).triggered_pins() == old(self).triggered_pins(),
            old(self).pins().contains(pin) && old(self).triggered_pins().contains(pin) ==> r
                == Err::<Activation, Error>(Error::AlreadyTriggered(pin)) && final(self).triggered_pins() == old(self).triggered_pins(),
            old(self).pins().contains(pin) && !old(self).triggered_pins().contains(pin) ==> {
                &&& r is Ok
                &&& r->Ok_0.spec_pin() == pin
                &&& r->Ok_0.spec_hold_secs() == old(self).spec_duration()
                &&& r->Ok_0.spec_phase() == Phase::Acquiring
                &&& final(self).triggered_pins() == old(self).triggered_pins().push(pin)
            },
            final(self).pins() == old(self).pins(),
            final(self).spec_duration() == old(self).spec_duration(),
            final(self).spec_policy() == old(self).spec_policy(),
    {
        let enrolled = self.pin_list.contains(pin);
        begin_activation(enrolled, &mut self.triggered, pin, self.duration)
    }

    /// Feeds the outcome of the step just performed to `activation`. When
    /// the activation is over, its lease is given back under
    /// [`RetriggerPolicy::Release`], so that its pin leaves the trigger set,
    /// and kept under [`RetriggerPolicy::SingleShot`].
    pub fn advance_fire(&mut self, activation: Activation, outcome: StepOutcome) -> (r:
        FireProgress)
        requires
            old(self).wf(),
        ensures
            final(self).wf(),
            match r {
                FireProgress::Continue(a) => {
                    &&& a.spec_pin() == activation.spec_pin()
                    &&& a.spec_hold_secs() == activation.spec_hold_secs()
                    &&& (outcome == StepOutcome::Done || activation.spec_phase() == Phase::Holding)
                    &&& next_phase(activation.spec_phase()) == Some(a.spec_phase())
                    &&& final(self).triggered_pins() == old(self).triggered_pins()
                },
                FireProgress::Done(res) => {
                    &&& (outcome == StepOutcome::Done ==> activation.spec_phase() == Phase::Lowering
                        && res is Ok)
                    &&& (outcome == StepOutcome::Failed ==> activation.spec_phase()
                        != Phase::Holding && res == Err::<(), Error>(
                        Error::HardwareFault(activation.spec_pin()),
                    ))
                    &&& (old(self).spec_policy() == RetriggerPolicy::Release ==> final(self).triggered_pins().to_set() == old(self).triggered_pins().to_set().remove(
                        activation.spec_pin(),
                    ))
                    &&& (old(self).spec_policy() == RetriggerPolicy::SingleShot ==> final(self).triggered_pins() == old(self).triggered_pins())
                },
            },
            final(self).pins() == old(self).pins(),
            final(self).spec_duration() == old(self).spec_duration(),
            final(self).spec_policy() == old(self).spec_policy(),
    {
        match activation.advance(outcome) {
            Progress::Continue(a) => FireProgress::Continue(a),
            Progress::Finished(lease, res) => {
                settle(&mut self.triggered, lease, self.policy);
                FireProgress::Done(res)
            },
        }
    }
}

/// Of two attempts to trigger the same pin with nothing given back in
/// between, exactly one succeeds: a pin that is not in flight is in flight
/// after the first, which is what makes [`AppState::trigger_pin`] and
/// [`AppState::start_fire`] refuse the second.
pub proof fn lemma_one_of_two_triggers(before: Seq<u8>, pin: u8, after: Seq<u8>)
    requires
        !before.contains(pin),
        after == before.push(pin),
    ensures
        after.contains(pin),
{
    assert(after[before.len() as int] == pin);
}

} // verus!
