use vstd::prelude::*;

verus! {

/// Everything that can go wrong in the pin state manager.
#[derive(Debug, Clone, Copy, PartialEq, Eq, Structural)]
pub enum Error {
    /// The shared state could not be locked: an earlier holder of the lock
    /// gave up while holding it.
    Conflict,
    /// The pin is not enrolled, so it cannot be fired.
    UnknownPin(u8),
    /// The pin is already enrolled.
    AlreadyEnrolled(u8),
    /// The pin is not enrolled, so it cannot be withdrawn.
    NotEnrolled(u8),
    /// The pin already has an activation in flight.
    AlreadyTriggered(u8),
    /// The hardware refused to hand out or drive the line of this pin.
    HardwareFault(u8),
    /// Reading or writing the persisted configuration failed.
    IoFailure,
    /// The persisted configuration is malformed.
    DecodeFailure,
    /// The configuration could not be serialized.
    EncodeFailure,
}

/// How an error is reported to a client.
#[derive(Debug, Clone, Copy, PartialEq, Eq, Structural)]
pub enum Status {
    BadRequest,
    NotFound,
    Conflict,
    Internal,
}

pub open spec fn status_of(e: Error) -> Status {
    match e {
        Error::Conflict => Status::Conflict,
        Error::UnknownPin(_) => Status::BadRequest,
        Error::AlreadyEnrolled(_) => Status::BadRequest,
        Error::AlreadyTriggered(_) => Status::BadRequest,
        Error::NotEnrolled(_) => Status::NotFound,
        Error::HardwareFault(_) => Status::Internal,
        Error::IoFailure => Status::Internal,
        Error::DecodeFailure => Status::Internal,
        Error::EncodeFailure => Status::Internal,
    }
}

pub open spec fn code_of(s: Status) -> u16 {
    match s {
        Status::BadRequest => 400,
        Status::NotFound => 404,
        Status::Conflict => 409,
        Status::Internal => 500,
    }
}

impl Error {
    /// The class of client-visible failure this error belongs to.
    pub fn status(&self) -> (r: Status)
        ensures
            r == status_of(*self),
    {
        match self {
            Error::Conflict => Status::Conflict,
            Error::UnknownPin(_) => Status::BadRequest,
            Error::AlreadyEnrolled(_) => Status::BadRequest,
            Error::AlreadyTriggered(_) => Status::BadRequest,
            Error::NotEnrolled(_) => Status::NotFound,
            Error::HardwareFault(_) => Status::Internal,
            Error::IoFailure => Status::Internal,
            Error::DecodeFailure => Status::Internal,
            Error::EncodeFailure => Status::Internal,
        }
    }
}

impl Status {
    /// The HTTP status code that reports this class of failure.
    pub fn code(&self) -> (r: u16)
        ensures
            r == code_of(*self),
    {
        match self {
            Status::BadRequest => 400,
            Status::NotFound => 404,
            Status::Conflict => 409,
            Status::Internal => 500,
        }
    }
}

} // verus!
