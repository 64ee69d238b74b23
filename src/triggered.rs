use vstd::prelude::*;
use crate::error::Error;

verus! {

/// Evidence that an activation of `pin` is in flight: only
/// [`TriggerSet::begin`] hands one out.
#[derive(Debug)]
pub struct Lease {
    pin: u8,
}

impl Lease {
    pub closed spec fn spec_pin(&self) -> u8 {
        self.pin
    }

    /// The pin this lease was taken for.
    pub fn pin(&self) -> (r: u8)
        ensures
            r == self.spec_pin(),
    {
        self.pin
    }
}

/// The pins that currently have an activation in flight, in the order in
/// which they were triggered.
#[derive(Debug)]
pub struct TriggerSet {
    pins: Vec<u8>,
}

impl View for TriggerSet {
    type V = Seq<u8>;

    closed spec fn view(&self) -> Seq<u8> {
        self.pins@
    }
}

impl TriggerSet {
    pub open spec fn wf(&self) -> bool {
        self@.no_duplicates()
    }

    /// No pin triggered.
    pub fn new() -> (r: TriggerSet)
        ensures
            r.wf(),
            r@ == Seq::<u8>::empty(),
    {
        TriggerSet { pins: Vec::new() }
    }

    /// The given pins, in their order, with repeated ones dropped.
    pub fn from_pins(pins: &Vec<u8>) -> (r: TriggerSet)
        ensures
            r.wf(),
            r@.to_set() == pins@.to_set(),
            pins@.no_duplicates() ==> r@ == pins@,
    {
        let mut r = TriggerSet::new();
        let mut i: usize = 0;
        while i < pins.len()
            invariant
                0 <= i <= pins@.len(),
                r.wf(),
                r@.to_set() == pins@.subrange(0, i as int).to_set(),
                pins@.no_duplicates() ==> r@ == pins@.subrange(0, i as int),
            decreases pins.len() - i,
        {
            let ghost prev = r@;
            let ghost seen = r@.to_set();
            match r.begin(pins[i]) {
                Ok(_) => {
                    proof {
                        prev.lemma_push_to_set_commute(pins@[i as int]);
                    }
                },
                Err(_) => {
                    assert(seen.insert(pins@[i as int]) =~= seen);
                    proof {
                        if pins@.no_duplicates() {
                            let k = choose|k: int| 0 <= k < prev.len() && prev[k] == pins@[i as int];
                            assert(pins@[k] == pins@[i as int]);
                        }
                    }
                },
            }
            proof {
                assert(pins@.subrange(0, i + 1) == pins@.subrange(0, i as int).push(pins@[i as int]));
                pins@.subrange(0, i as int).lemma_push_to_set_commute(pins@[i as int]);
            }
            i = i + 1;
        }
        assert(pins@.subrange(0, pins@.len() as int) == pins@);
        r
    }

    /// Whether `pin` has an activation in flight.
    pub fn contains(&self, pin: u8) -> (r: bool)
        ensures
            r == self@.contains(pin),
    {
        let mut i: usize = 0;
        while i < self.pins.len()
            invariant
                0 <= i <= self@.len(),
                self@ == self.pins@,
                forall|k: int| 0 <= k < i ==> self@[k] != pin,
            decreases self.pins.len() - i,
        {
            if self.pins[i] == pin {
                return true;
            }
            i = i + 1;
        }
        false
    }

    /// Marks `pin` as triggered and hands out the lease of its activation;
    /// fails if an activation of `pin` is already in flight.
    pub fn begin(&mut self, pin: u8) -> (r: Result<Lease, Error>)
        requires
            old(self).wf(),
        ensures
            final(self).wf(),
            r is Ok <==> !old(self)@.contains(pin),
            r is Ok ==> final(self)@ == old(self)@.push(pin) && r->Ok_0.spec_pin() == pin,
            r is Err ==> r->Err_0 == Error::AlreadyTriggered(pin) && final(self)@ == old(self)@,
    {
        if self.contains(pin) {
            return Err(Error::AlreadyTriggered(pin));
        }
        self.pins.push(pin);
        proof {
            let s = self.pins@;
            assert forall|a: int, b: int| 0 <= a < s.len() && 0 <= b < s.len() && a != b implies s[a]
                != s[b] by {
                if a == s.len() - 1 {
                    assert(old(self)@.contains(s[b]) || b == s.len() - 1);
                } else if b == s.len() - 1 {
                    assert(old(self)@[a] == s[a]);
                }
            }
        }
        Ok(Lease { pin })
    }

    /// Ends the activation that `lease` stands for, so that its pin can be
    /// triggered again.
    pub fn end(&mut self, lease: Lease)
        requires
            old(self).wf(),
        ensures
            final(self).wf(),
            final(self)@.to_set() == old(self)@.to_set().remove(lease.spec_pin()),
            final(self)@.len() == if old(self)@.contains(lease.spec_pin()) {
                old(self)@.len() - 1
            } else {
                old(self)@.len() as int
            },
    {
        let pin = lease.pin;
        let ghost before = self.pins@;
        let mut i: usize = 0;
        while i < self.pins.len()
            invariant
                0 <= i <= before.len(),
                self.pins@ == before,
                before == old(self)@,
                before.no_duplicates(),
                pin == lease.spec_pin(),
                forall|k: int| 0 <= k < i ==> before[k] != pin,
            decreases self.pins.len() - i,
        {
            if self.pins[i] == pin {
                self.pins.remove(i);
                proof {
                    let after = self.pins@;
                    before.remove_ensures(i as int);
                    assert forall|x: u8| after.contains(x) <==> before.contains(x) && x != pin by {
                        if after.contains(x) {
                            let k = choose|k: int| 0 <= k < after.len() && after[k] == x;
                            if k < i {
                                assert(before[k] == x && k != i);
                            } else {
                                assert(before[k + 1] == x && k + 1 != i);
                            }
                        }
                        if before.contains(x) && x != pin {
                            let k = choose|k: int| 0 <= k < before.len() && before[k] == x;
                            if k < i {
                                assert(after[k] == x);
                            } else {
                                assert(k != i);
                                assert(after[k - 1] == x);
                            }
                        }
                    }
                    assert(after.to_set() =~= before.to_set().remove(pin));
                    assert(before.contains(pin));
                    assert forall|a: int, b: int|
                        0 <= a < after.len() && 0 <= b < after.len() && a != b implies after[a]
                        != after[b] by {
                        let a1 = if a < i { a } else { a + 1 };
                        let b1 = if b < i { b } else { b + 1 };
                        assert(after[a] == before[a1] && after[b] == before[b1]);
                    }
                    assert(self@ == after);
                }
                return;
            }
            i = i + 1;
        }
        assert(before.to_set().remove(pin) =~= before.to_set());
    }

    /// A copy of the triggered pins.
    pub fn list(&self) -> (r: Vec<u8>)
        ensures
            r@ == self@,
    {
        self.pins.clone()
    }
}

/// Giving back the lease of a pin makes it possible to trigger it again.
pub proof fn lemma_end_allows_begin(before: Seq<u8>, pin: u8, after: Seq<u8>)
    requires
        after.to_set() == before.to_set().remove(pin),
    ensures
        !after.contains(pin),
{
    if after.contains(pin) {
        assert(after.to_set().contains(pin));
    }
}

} // verus!
