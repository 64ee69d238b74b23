use dr_piro::error::Error;
use dr_piro::fire::{
    begin_activation, settle, Activation, Phase, Progress, RetriggerPolicy, Step, StepOutcome,
};
use dr_piro::triggered::TriggerSet;

fn activation(pin: u8, secs: u8) -> Activation {
    let mut t = TriggerSet::new();
    Activation::new(t.begin(pin).unwrap(), secs)
}

#[test]
fn clean_activation_walks_all_steps() {
    let mut a = activation(5, 3);
    let mut steps = Vec::new();
    loop {
        steps.push(a.step());
        match a.advance(StepOutcome::Done) {
            Progress::Continue(next) => a = next,
            Progress::Finished(lease, res) => {
                assert_eq!(lease.pin(), 5);
                assert_eq!(res, Ok(()));
                break;
            }
        }
    }
    assert_eq!(
        steps,
        vec![Step::AcquireLine(5), Step::SetHigh(5), Step::Hold(3), Step::SetLow(5)]
    );
}

#[test]
fn acquire_failure_ends_with_hardware_fault() {
    let a = activation(4, 1);
    match a.advance(StepOutcome::Failed) {
        Progress::Finished(lease, res) => {
            assert_eq!(lease.pin(), 4);
            assert_eq!(res, Err(Error::HardwareFault(4)));
        }
        Progress::Continue(_) => panic!("activation went on after a failed acquire"),
    }
}

#[test]
fn interrupted_hold_still_lowers_line() {
    let mut a = activation(2, 8);
    for _ in 0..2 {
        a = match a.advance(StepOutcome::Done) {
            Progress::Continue(next) => next,
            Progress::Finished(..) => panic!("finished early"),
        };
    }
    assert_eq!(a.phase(), Phase::Holding);
    match a.advance(StepOutcome::Failed) {
        Progress::Continue(next) => {
            assert_eq!(next.step(), Step::SetLow(2));
            match next.advance(StepOutcome::Failed) {
                Progress::Finished(_, res) => assert_eq!(res, Err(Error::HardwareFault(2))),
                Progress::Continue(_) => panic!("lowering did not finish"),
            }
        }
        Progress::Finished(..) => panic!("line left high"),
    }
}

#[test]
fn activation_reports_its_pin_and_hold() {
    let a = activation(11, 200);
    assert_eq!(a.pin(), 11);
    assert_eq!(a.hold_secs(), 200);
    assert_eq!(a.phase(), Phase::Acquiring);
}

#[test]
fn begin_activation_refuses_unknown_pin_first() {
    let mut t = TriggerSet::new();
    let _held = t.begin(3).unwrap();
    assert_eq!(begin_activation(false, &mut t, 3, 1).unwrap_err(), Error::UnknownPin(3));
    assert_eq!(begin_activation(false, &mut t, 4, 1).unwrap_err(), Error::UnknownPin(4));
    assert_eq!(t.list(), vec![3]);
}

#[test]
fn begin_activation_refuses_pin_in_flight() {
    let mut t = TriggerSet::new();
    let _held = t.begin(3).unwrap();
    assert_eq!(begin_activation(true, &mut t, 3, 1).unwrap_err(), Error::AlreadyTriggered(3));
    assert_eq!(t.list(), vec![3]);
}

#[test]
fn begin_activation_marks_pin_and_reads_hold() {
    let mut t = TriggerSet::new();
    let a = begin_activation(true, &mut t, 8, 6).unwrap();
    assert_eq!(a.pin(), 8);
    assert_eq!(a.hold_secs(), 6);
    assert_eq!(a.step(), Step::AcquireLine(8));
    assert_eq!(t.list(), vec![8]);
}

#[test]
fn settle_follows_policy() {
    let mut t = TriggerSet::new();
    let lease = t.begin(2).unwrap();
    settle(&mut t, lease, RetriggerPolicy::SingleShot);
    assert_eq!(t.list(), vec![2]);
    let mut u = TriggerSet::new();
    let lease = u.begin(2).unwrap();
    settle(&mut u, lease, RetriggerPolicy::Release);
    assert_eq!(u.list(), Vec::<u8>::new());
}
