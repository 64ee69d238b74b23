use vstd::prelude::*;
use crate::error::Error;

verus! {

/// Every element is smaller than the one after it: sorted, without duplicates.
pub open spec fn strictly_ascending(s: Seq<u8>) -> bool {
    forall|i: int, j: int| 0 <= i < j < s.len() ==> s[i] < s[j]
}

/// Whether the hardware accepts `pin` as an output line, given whether it
/// could hand out that line.
pub fn is_valid_pin(pin: u8, line_available: bool) -> (r: Result<(), Error>)
    ensures
        r == if line_available {
            Ok::<(), Error>(())
        } else {
            Err(Error::HardwareFault(pin))
        },
{
    if line_available {
        Ok(())
    } else {
        Err(Error::HardwareFault(pin))
    }
}

/// The enrolled pins, kept in ascending order without duplicates.
#[derive(Debug)]
pub struct PinRoster {
    pins: Vec<u8>,
}

impl View for PinRoster {
    type V = Seq<u8>;

    closed spec fn view(&self) -> Seq<u8> {
        self.pins@
    }
}

impl PinRoster {
    pub open spec fn wf(&self) -> bool {
        strictly_ascending(self@)
    }

    /// An empty roster.
    pub fn new() -> (r: PinRoster)
        ensures
            r.wf(),
            r@ == Seq::<u8>::empty(),
    {
        PinRoster { pins: Vec::new() }
    }

    /// Whether `pin` is enrolled.
    pub fn contains(&self, pin: u8) -> (r: bool)
        ensures
            r == self@.contains(pin),
    {
        let mut i: usize = 0;
        while i < self.pins.len()
            invariant
                0 <= i <= self@.len(),
                self@ == self.pins@,
                forall|k: int| 0 <= k < i ==> self@[k] != pin,
            decreases self.pins.len() - i,
        {
            if self.pins[i] == pin {
                return true;
            }
            i = i + 1;
        }
        false
    }

    /// Adds `pin` to the roster, keeping it in ascending order.
    ///
    /// Enrolling a pin twice is a client error, not a silent no-op.
    pub fn enroll(&mut self, pin: u8) -> (r: Result<(), Error>)
        requires
            old(self).wf(),
        ensures
            final(self).wf(),
            r is Ok <==> !old(self)@.contains(pin),
            r is Ok ==> enrolled_into(old(self)@, pin, final(self)@),
            r is Err ==> r == Err::<(), Error>(Error::AlreadyEnrolled(pin)) && final(self)@ == old(self)@,
    {
        let mut i: usize = 0;
        while i < self.pins.len() && self.pins[i] < pin
            invariant
                0 <= i <= self.pins@.len(),
                strictly_ascending(self.pins@),
                forall|k: int| 0 <= k < i ==> self.pins@[k] < pin,
            decreases self.pins.len() - i,
        {
            i = i + 1;
        }
        if i < self.pins.len() && self.pins[i] == pin {
            assert(self@[i as int] == pin);
            return Err(Error::AlreadyEnrolled(pin));
        }
        let ghost before = self.pins@;
        assert forall|k: int| i <= k < before.len() implies before[k] > pin by {
            assert(before[i as int] > pin);
            assert(k > i ==> before[i as int] < before[k]);
        }
        assert(!before.contains(pin));
        self.pins.insert(i, pin);
        let ghost after = self.pins@;
        proof {
            before.insert_ensures(i as int, pin);
            assert(after[i as int] == pin);
            assert forall|a: int, b: int| 0 <= a < b < after.len() implies after[a] < after[b] by {
                if b < i {
                } else if b == i {
                } else if a < i {
                    assert(after[b] == before[b - 1]);
                } else if a == i {
                    assert(after[b] == before[b - 1]);
                } else {
                    assert(after[a] == before[a - 1] && after[b] == before[b - 1]);
                }
            }
            assert forall|x: u8| after.contains(x) <==> before.contains(x) || x == pin by {
                if after.contains(x) {
                    let k = choose|k: int| 0 <= k < after.len() && after[k] == x;
                    if k < i {
                        assert(before[k] == x);
                    } else if k > i {
                        assert(before[k - 1] == x);
                    }
                }
                if before.contains(x) {
                    let k = choose|k: int| 0 <= k < before.len() && before[k] == x;
                    if k < i {
                        assert(after[k] == x);
                    } else {
                        assert(after[k + 1] == x);
                    }
                }
            }
            assert(after.to_set() =~= before.to_set().insert(pin));
        }
        Ok(())
    }

    /// Enrolls `pin` when it is not enrolled yet and the hardware can hand
    /// out its line; the enrollment check comes first.
    pub fn enroll_checked(&mut self, pin: u8, line_available: bool) -> (r: Result<(), Error>)
        requires
            old(self).wf(),
        ensures
            final(self).wf(),
            r == if old(self)@.contains(pin) {
                Err::<(), Error>(Error::AlreadyEnrolled(pin))
            } else if !line_available {
                Err(Error::HardwareFault(pin))
            } else {
                Ok(())
            },
            r is Ok ==> enrolled_into(old(self)@, pin, final(self)@),
            r is Err ==> final(self)@ == old(self)@,
    {
        if self.contains(pin) {
            return Err(Error::AlreadyEnrolled(pin));
        }
        match is_valid_pin(pin, line_available) {
            Ok(()) => match self.enroll(pin) {
                Ok(()) => Ok(()),
                Err(e) => Err(e),
            },
            Err(e) => Err(e),
        }
    }

    /// Removes `pin` from the roster, locating it by binary search.
    pub fn withdraw(&mut self, pin: u8) -> (r: Result<(), Error>)
        requires
            old(self).wf(),
        ensures
            final(self).wf(),
            r is Ok <==> old(self)@.contains(pin),
            r is Ok ==> withdrawn_from(old(self)@, pin, final(self)@),
            r is Err ==> r == Err::<(), Error>(Error::NotEnrolled(pin)) && final(self)@ == old(self)@,
    {
        let ghost before = self.pins@;
        let mut lo: usize = 0;
        let mut hi: usize = self.pins.len();
        while lo < hi
            invariant
                0 <= lo <= hi <= before.len(),
                self.pins@ == before,
                old(self)@ == before,
                strictly_ascending(before),
                forall|k: int| 0 <= k < lo ==> before[k] < pin,
                forall|k: int| hi <= k < before.len() ==> before[k] > pin,
            decreases hi - lo,
        {
            let mid = lo + (hi - lo) / 2;
            let v = self.pins[mid];
            if v < pin {
                assert forall|k: int| 0 <= k <= mid implies before[k] < pin by {
                    assert(k < mid ==> before[k] < before[mid as int]);
                }
                lo = mid + 1;
            } else if v > pin {
                assert forall|k: int| mid <= k < before.len() implies before[k] > pin by {
                    assert(k > mid ==> before[mid as int] < before[k]);
                }
                hi = mid;
            } else {
                assert(before[mid as int] == pin);
                self.pins.remove(mid);
                let ghost after = self.pins@;
                proof {
                    before.remove_ensures(mid as int);
                    assert forall|a: int, b: int| 0 <= a < b < after.len() implies after[a]
                        < after[b] by {
                        if b < mid {
                        } else if a < mid {
                            assert(after[b] == before[b + 1]);
                        } else {
                            assert(after[a] == before[a + 1] && after[b] == before[b + 1]);
                        }
                    }
                    assert forall|x: u8| after.contains(x) <==> before.contains(x) && x != pin by {
                        if after.contains(x) {
                            let k = choose|k: int| 0 <= k < after.len() && after[k] == x;
                            if k < mid {
                                assert(before[k] == x && before[k] < before[mid as int]);
                            } else {
                                assert(before[k + 1] == x && before[mid as int] < before[k + 1]);
                            }
                        }
                        if before.contains(x) && x != pin {
                            let k = choose|k: int| 0 <= k < before.len() && before[k] == x;
                            if k < mid {
                                assert(after[k] == x);
                            } else {
                                assert(k != mid);
                                assert(after[k - 1] == x);
                            }
                        }
                    }
                    assert(after.to_set() =~= before.to_set().remove(pin));
                    assert(self@ == after);
                }
                return Ok(());
            }
        }
        Err(Error::NotEnrolled(pin))
    }

    /// A roster of the given pins, sorted and with duplicates dropped.
    pub fn from_pins(pins: &Vec<u8>) -> (r: PinRoster)
        ensures
            r.wf(),
            r@.to_set() == pins@.to_set(),
    {
        let mut r = PinRoster::new();
        let mut i: usize = 0;
        while i < pins.len()
            invariant
                0 <= i <= pins@.len(),
                r.wf(),
                r@.to_set() == pins@.subrange(0, i as int).to_set(),
            decreases pins.len() - i,
        {
            let ghost seen = r@.to_set();
            let _ = r.enroll(pins[i]);
            proof {
                assert(r@.to_set() =~= seen.insert(pins@[i as int])) by {
                    if seen.contains(pins@[i as int]) {
                        assert(seen.insert(pins@[i as int]) =~= seen);
                        assert(r@.to_set().contains(pins@[i as int]));
                    }
                }
                assert(pins@.subrange(0, i + 1) == pins@.subrange(0, i as int).push(pins@[i as int]));
                pins@.subrange(0, i as int).lemma_push_to_set_commute(pins@[i as int]);
            }
            i = i + 1;
        }
        assert(pins@.subrange(0, pins@.len() as int) == pins@);
        r
    }

    /// The roster `start, start + 1, ..., end - 1` (empty when `end <= start`).
    pub fn from_range(start: u8, end: u8) -> (r: PinRoster)
        ensures
            r.wf(),
            r@ == pin_range(start, end),
    {
        let mut pins: Vec<u8> = Vec::new();
        let mut p: u8 = start;
        while p < end
            invariant
                start <= p <= end || (end <= start && p == start),
                start < end ==> pins@.len() == p - start,
                start >= end ==> pins@.len() == 0,
                forall|k: int| 0 <= k < pins@.len() ==> pins@[k] == start + k,
            decreases end - p,
        {
            pins.push(p);
            p = p + 1;
        }
        assert(pins@ =~= pin_range(start, end));
        PinRoster { pins }
    }

    /// A copy of the enrolled pins, in ascending order.
    pub fn list(&self) -> (r: Vec<u8>)
        ensures
            r@ == self@,
    {
        self.pins.clone()
    }
}

/// `after` is the ascending listing of the pins of `before` and `pin`.
pub open spec fn enrolled_into(before: Seq<u8>, pin: u8, after: Seq<u8>) -> bool {
    strictly_ascending(after) && after.to_set() == before.to_set().insert(pin)
}

/// `after` is the ascending listing of the pins of `before` other than `pin`.
pub open spec fn withdrawn_from(before: Seq<u8>, pin: u8, after: Seq<u8>) -> bool {
    strictly_ascending(after) && after.to_set() == before.to_set().remove(pin)
}

/// The pins `start, start + 1, ..., end - 1`; empty when `end <= start`.
pub open spec fn pin_range(start: u8, end: u8) -> Seq<u8> {
    if start < end {
        Seq::new((end - start) as nat, |i: int| (start + i) as u8)
    } else {
        Seq::empty()
    }
}

/// Two ascending listings of the same pins are the same listing.
pub proof fn lemma_ascending_unique(a: Seq<u8>, b: Seq<u8>)
    requires
        strictly_ascending(a),
        strictly_ascending(b),
        a.to_set() == b.to_set(),
    ensures
        a == b,
    decreases a.len(),
{
    assert forall|x: u8| a.contains(x) <==> b.contains(x) by {
        assert(a.to_set().contains(x) <==> a.contains(x));
        assert(b.to_set().contains(x) <==> b.contains(x));
    }
    if a.len() == 0 {
        if b.len() > 0 {
            assert(b.contains(b[0]));
        }
        assert(a =~= b);
    } else {
        assert(a.contains(a[0]));
        let j = choose|j: int| 0 <= j < b.len() && b[j] == a[0];
        assert(b.contains(b[0]));
        let i = choose|i: int| 0 <= i < a.len() && a[i] == b[0];
        assert(a[0] == b[0]) by {
            if a[0] < b[0] {
                assert(j > 0 ==> b[0] < b[j]);
            } else if b[0] < a[0] {
                assert(i > 0 ==> a[0] < a[i]);
            }
        }
        let a1 = a.drop_first();
        let b1 = b.drop_first();
        assert forall|x: u8| a1.contains(x) <==> b1.contains(x) by {
            if a1.contains(x) {
                let k = choose|k: int| 0 <= k < a1.len() && a1[k] == x;
                assert(a[k + 1] == x && a[0] < a[k + 1]);
                assert(a.contains(x));
                let m = choose|m: int| 0 <= m < b.len() && b[m] == x;
                assert(m != 0);
                assert(b1[m - 1] == x);
            }
            if b1.contains(x) {
                let k = choose|k: int| 0 <= k < b1.len() && b1[k] == x;
                assert(b[k + 1] == x && b[0] < b[k + 1]);
                assert(b.contains(x));
                let m = choose|m: int| 0 <= m < a.len() && a[m] == x;
                assert(m != 0);
                assert(a1[m - 1] == x);
            }
        }
        assert(a1.to_set() =~= b1.to_set());
        lemma_ascending_unique(a1, b1);
        assert(a =~= b) by {
            assert(a == seq![a[0]] + a1);
            assert(b == seq![b[0]] + b1);
        }
    }
}

/// Enrolling a pin that was not enrolled and then withdrawing it gives back
/// the roster exactly as it was before.
pub proof fn lemma_enroll_withdraw_round_trip(
    before: Seq<u8>,
    pin: u8,
    enrolled: Seq<u8>,
    after: Seq<u8>,
)
    requires
        strictly_ascending(before),
        !before.contains(pin),
        enrolled_into(before, pin, enrolled),
        withdrawn_from(enrolled, pin, after),
    ensures
        after == before,
{
    assert(after.to_set() =~= before.to_set()) by {
        assert(!before.to_set().contains(pin));
    }
    lemma_ascending_unique(after, before);
}

/// Withdrawing an enrolled pin and then enrolling it again gives back the
/// roster exactly as it was before.
pub proof fn lemma_withdraw_enroll_round_trip(
    before: Seq<u8>,
    pin: u8,
    withdrawn: Seq<u8>,
    after: Seq<u8>,
)
    requires
        strictly_ascending(before),
        before.contains(pin),
        withdrawn_from(before, pin, withdrawn),
        enrolled_into(withdrawn, pin, after),
    ensures
        after == before,
{
    assert(after.to_set() =~= before.to_set()) by {
        assert(before.to_set().contains(pin));
    }
    lemma_ascending_unique(after, before);
}

} // verus!
