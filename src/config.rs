use vstd::prelude::*;
use crate::error::Error;
use crate::roster::{PinRoster, strictly_ascending, pin_range};
use crate::triggered::TriggerSet;

verus! {

/// A point-in-time snapshot of the whole configuration, as it is persisted.
#[derive(Debug, Clone, PartialEq, Eq)]
pub struct PinConfig {
    /// The enrolled pins.
    pub pins: Vec<u8>,
    /// The pins with an activation in flight.
    pub triggered: Vec<u8>,
    /// How many seconds a fired pin is held active.
    pub duration: u8,
}

impl PinConfig {
    /// Enrolled pins ascending and distinct, triggered pins distinct.
    pub open spec fn wf(&self) -> bool {
        strictly_ascending(self.pins@) && self.triggered@.no_duplicates()
    }

    /// The configuration of a first run: nothing enrolled, nothing
    /// triggered, a zero duration.
    pub fn empty() -> (r: PinConfig)
        ensures
            r.wf(),
            r.pins@ == Seq::<u8>::empty(),
            r.triggered@ == Seq::<u8>::empty(),
            r.duration == 0,
    {
        PinConfig { pins: Vec::new(), triggered: Vec::new(), duration: 0 }
    }

    /// This configuration brought into shape: enrolled pins sorted with
    /// duplicates dropped, repeated triggered pins dropped. A well-formed
    /// configuration comes back unchanged.
    pub fn normalized(&self) -> (r: PinConfig)
        ensures
            r.wf(),
            r.pins@.to_set() == self.pins@.to_set(),
            r.triggered@.to_set() == self.triggered@.to_set(),
            r.duration == self.duration,
            self.wf() ==> r.pins@ == self.pins@ && r.triggered@ == self.triggered@,
    {
        let roster = PinRoster::from_pins(&self.pins);
        let triggered = TriggerSet::from_pins(&self.triggered);
        proof {
            if strictly_ascending(self.pins@) {
                crate::roster::lemma_ascending_unique(roster@, self.pins@);
            }
        }
        PinConfig { pins: roster.list(), triggered: triggered.list(), duration: self.duration }
    }

    /// This configuration with the startup overrides applied: the roster
    /// becomes `start..end` when both bounds are given, and the duration is
    /// replaced when one is given.
    pub fn with_overrides(self, start: Option<u8>, end: Option<u8>, duration: Option<u8>) -> (r:
        PinConfig)
        ensures
            r.pins@ == (if start is Some && end is Some {
                pin_range(start->Some_0, end->Some_0)
            } else {
                self.pins@
            }),
            r.triggered@ == self.triggered@,
            r.duration == (if duration is Some {
                duration->Some_0
            } else {
                self.duration
            }),
            self.wf() ==> r.wf(),
    {
        let mut cfg = self;
        match (start, end) {
            (Some(s), Some(e)) => {
                cfg.pins = PinRoster::from_range(s, e).list();
            },
            _ => {},
        }
        match duration {
            Some(d) => {
                cfg.duration = d;
            },
            None => {},
        }
        cfg
    }
}

/// What reading the persisted configuration gave.
#[derive(Debug)]
pub enum Loaded {
    /// There is no file at the path.
    Missing,
    /// The file exists but could not be read.
    Unreadable,
    /// The file was read but does not hold a configuration.
    Malformed,
    /// The file held this configuration.
    Found(PinConfig),
}

/// Turns the outcome of reading the persisted configuration into the
/// configuration to start from. A missing file is a first run, not an
/// error.
pub fn resolve_load(loaded: Loaded) -> (r: Result<PinConfig, Error>)
    ensures
        match loaded {
            Loaded::Missing => r is Ok && r->Ok_0.pins@.len() == 0 && r->Ok_0.triggered@.len() == 0
                && r->Ok_0.duration == 0,
            Loaded::Unreadable => r == Err::<PinConfig, Error>(Error::IoFailure),
            Loaded::Malformed => r == Err::<PinConfig, Error>(Error::DecodeFailure),
            Loaded::Found(c) => r is Ok && r->Ok_0.wf() && r->Ok_0.pins@.to_set() == c.pins@.to_set()
                && r->Ok_0.triggered@.to_set() == c.triggered@.to_set() && r->Ok_0.duration
                == c.duration && (c.wf() ==> r->Ok_0.pins@ == c.pins@ && r->Ok_0.triggered@
                == c.triggered@),
        },
        r is Ok ==> r->Ok_0.wf(),
{
    match loaded {
        Loaded::Missing => Ok(PinConfig::empty()),
        Loaded::Unreadable => Err(Error::IoFailure),
        Loaded::Malformed => Err(Error::DecodeFailure),
        Loaded::Found(c) => Ok(c.normalized()),
    }
}

} // verus!
