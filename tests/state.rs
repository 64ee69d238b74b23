use dr_piro::config::PinConfig;
use dr_piro::error::{Error, Status};
use dr_piro::fire::{RetriggerPolicy, Step, StepOutcome};
use dr_piro::roster::is_valid_pin;
use dr_piro::state::{AppState, FireProgress};

fn state(pins: &[u8], duration: u8, policy: RetriggerPolicy) -> AppState {
    let cfg = PinConfig { pins: pins.to_vec(), triggered: vec![], duration };
    AppState::new(&cfg, policy)
}

/// Drives a fire of `pin` to its end with every step going through, and
/// returns the steps asked for and the result.
fn fire(s: &mut AppState, pin: u8) -> Result<(Vec<Step>, Result<(), Error>), Error> {
    let mut a = s.start_fire(pin)?;
    let mut steps = Vec::new();
    loop {
        steps.push(a.step());
        match s.advance_fire(a, StepOutcome::Done) {
            FireProgress::Continue(next) => a = next,
            FireProgress::Done(res) => return Ok((steps, res)),
        }
    }
}

#[test]
fn scenario_fire_unknown_and_withdraw() {
    let mut s = state(&[2, 5, 9], 3, RetriggerPolicy::Release);
    let (steps, res) = fire(&mut s, 5).unwrap();
    assert_eq!(res, Ok(()));
    assert_eq!(
        steps,
        vec![Step::AcquireLine(5), Step::SetHigh(5), Step::Hold(3), Step::SetLow(5)]
    );
    assert_eq!(fire(&mut s, 7).unwrap_err(), Error::UnknownPin(7));
    let cfg = s.withdraw_pin(2).unwrap();
    assert_eq!(cfg, PinConfig { pins: vec![5, 9], triggered: vec![], duration: 3 });
    assert_eq!(s.list(), vec![5, 9]);
    assert_eq!(s.to_pin_config(), cfg);
}

#[test]
fn fire_of_unknown_pin_takes_no_lease() {
    let mut s = state(&[1], 3, RetriggerPolicy::Release);
    assert_eq!(s.start_fire(4).unwrap_err(), Error::UnknownPin(4));
    assert_eq!(s.check_pin(4), Err(Error::UnknownPin(4)));
    assert_eq!(s.check_pin(1), Ok(()));
    assert_eq!(s.to_pin_config().triggered, Vec::<u8>::new());
}

#[test]
fn second_fire_while_first_in_flight_fails() {
    let mut s = state(&[5], 3, RetriggerPolicy::Release);
    let first = s.start_fire(5).unwrap();
    assert_eq!(s.start_fire(5).unwrap_err(), Error::AlreadyTriggered(5));
    assert_eq!(s.to_pin_config().triggered, vec![5]);
    let mut a = first;
    loop {
        match s.advance_fire(a, StepOutcome::Done) {
            FireProgress::Continue(next) => a = next,
            FireProgress::Done(res) => {
                assert_eq!(res, Ok(()));
                break;
            }
        }
    }
    assert_eq!(s.to_pin_config().triggered, Vec::<u8>::new());
    assert!(fire(&mut s, 5).is_ok());
}

#[test]
fn single_shot_policy_keeps_pin_locked() {
    let mut s = state(&[5], 0, RetriggerPolicy::SingleShot);
    assert_eq!(s.policy(), RetriggerPolicy::SingleShot);
    assert_eq!(fire(&mut s, 5).unwrap().1, Ok(()));
    assert_eq!(fire(&mut s, 5).unwrap_err(), Error::AlreadyTriggered(5));
    assert_eq!(s.to_pin_config().triggered, vec![5]);
}

#[test]
fn single_shot_keeps_persisted_lockouts() {
    let cfg = PinConfig { pins: vec![3, 4], triggered: vec![4], duration: 1 };
    let mut s = AppState::new(&cfg, RetriggerPolicy::SingleShot);
    assert_eq!(s.start_fire(4).unwrap_err(), Error::AlreadyTriggered(4));
    let mut r = AppState::new(&cfg, RetriggerPolicy::Release);
    assert!(r.start_fire(4).is_ok());
}

#[test]
fn hardware_failure_releases_guard() {
    let mut s = state(&[6], 2, RetriggerPolicy::Release);
    let a = s.start_fire(6).unwrap();
    match s.advance_fire(a, StepOutcome::Failed) {
        FireProgress::Done(res) => assert_eq!(res, Err(Error::HardwareFault(6))),
        FireProgress::Continue(_) => panic!("went on after a failed acquire"),
    }
    assert!(s.start_fire(6).is_ok());
}

#[test]
fn duration_change_mid_hold_applies_to_next_fire() {
    let mut s = state(&[5], 3, RetriggerPolicy::Release);
    let a = s.start_fire(5).unwrap();
    let cfg = s.set_duration(Some(7));
    assert_eq!(cfg, PinConfig { pins: vec![5], triggered: vec![5], duration: 7 });
    assert_eq!(s.duration(), 7);
    assert_eq!(a.hold_secs(), 3);
    let mut a = a;
    loop {
        assert_eq!(a.hold_secs(), 3);
        match s.advance_fire(a, StepOutcome::Done) {
            FireProgress::Continue(next) => a = next,
            FireProgress::Done(_) => break,
        }
    }
    let (steps, _) = fire(&mut s, 5).unwrap();
    assert_eq!(steps[2], Step::Hold(7));
}

#[test]
fn set_duration_without_value_keeps_it() {
    let mut s = state(&[1], 4, RetriggerPolicy::Release);
    assert_eq!(
        s.set_duration(None),
        PinConfig { pins: vec![1], triggered: vec![], duration: 4 }
    );
    assert_eq!(s.duration(), 4);
}

#[test]
fn enroll_and_withdraw_return_fresh_snapshot() {
    let mut s = state(&[2, 9], 3, RetriggerPolicy::Release);
    let before = s.to_pin_config();
    let enrolled = s.enroll_pin(5, true).unwrap();
    assert_eq!(enrolled, PinConfig { pins: vec![2, 5, 9], triggered: vec![], duration: 3 });
    let withdrawn = s.withdraw_pin(5).unwrap();
    assert_eq!(withdrawn, before);
}

#[test]
fn enroll_errors() {
    let mut s = state(&[2], 3, RetriggerPolicy::Release);
    assert_eq!(s.enroll_pin(2, true).unwrap_err(), Error::AlreadyEnrolled(2));
    assert_eq!(s.enroll_pin(2, false).unwrap_err(), Error::AlreadyEnrolled(2));
    assert_eq!(s.enroll_pin(3, false).unwrap_err(), Error::HardwareFault(3));
    assert_eq!(s.withdraw_pin(3).unwrap_err(), Error::NotEnrolled(3));
    assert_eq!(s.list(), vec![2]);
}

#[test]
fn valid_pin_follows_line_availability() {
    assert_eq!(is_valid_pin(4, true), Ok(()));
    assert_eq!(is_valid_pin(4, false), Err(Error::HardwareFault(4)));
}

#[test]
fn new_state_normalizes_config() {
    let cfg = PinConfig { pins: vec![9, 2, 2], triggered: vec![9], duration: 5 };
    let s = AppState::new(&cfg, RetriggerPolicy::Release);
    assert_eq!(s.to_pin_config(), PinConfig { pins: vec![2, 9], triggered: vec![], duration: 5 });
}

#[test]
fn error_status_codes() {
    assert_eq!(Error::Conflict.status(), Status::Conflict);
    assert_eq!(Error::UnknownPin(1).status(), Status::BadRequest);
    assert_eq!(Error::AlreadyEnrolled(1).status(), Status::BadRequest);
    assert_eq!(Error::AlreadyTriggered(1).status(), Status::BadRequest);
    assert_eq!(Error::NotEnrolled(1).status(), Status::NotFound);
    assert_eq!(Error::HardwareFault(1).status(), Status::Internal);
    assert_eq!(Error::IoFailure.status(), Status::Internal);
    assert_eq!(Error::DecodeFailure.status(), Status::Internal);
    assert_eq!(Error::EncodeFailure.status(), Status::Internal);
    assert_eq!(Status::BadRequest.code(), 400);
    assert_eq!(Status::NotFound.code(), 404);
    assert_eq!(Status::Conflict.code(), 409);
    assert_eq!(Status::Internal.code(), 500);
}

#[test]
fn trigger_pin_hands_out_lease_once() {
    let mut s = state(&[1], 0, RetriggerPolicy::Release);
    let lease = s.trigger_pin(1).unwrap();
    assert_eq!(lease.pin(), 1);
    assert_eq!(s.trigger_pin(1).unwrap_err(), Error::AlreadyTriggered(1));
    assert_eq!(s.start_fire(1).unwrap_err(), Error::AlreadyTriggered(1));
    assert_eq!(s.to_pin_config().triggered, vec![1]);
    assert_eq!(s.check_pin(1), Ok(()));
}

#[test]
fn app_state_can_be_shared_between_threads() {
    fn shareable<T: Send + Sync>() {}
    shareable::<AppState>();
}
