use vstd::prelude::*;

verus! {

/// The status vocabulary exchanged with the host dispatcher, as fixed small
/// signed integer codes.
#[derive(Clone, Copy, PartialEq, Eq, Structural, Debug)]
pub enum LookupOutcome {
    TryAgain,
    Unavailable,
    NotFound,
    Success,
    ShouldReturn,
}

impl LookupOutcome {
    /// The fixed signed-integer code of each outcome.
    pub open spec fn code_spec(self) -> int {
        match self {
            LookupOutcome::TryAgain => -2,
            LookupOutcome::Unavailable => -1,
            LookupOutcome::NotFound => 0,
            LookupOutcome::Success => 1,
            LookupOutcome::ShouldReturn => 2,
        }
    }

    /// Renders the outcome as its status code.
    pub fn code(&self) -> (c: i32)
        ensures
            c == self.code_spec(),
    {
        match *self {
            LookupOutcome::TryAgain => -2,
            LookupOutcome::Unavailable => -1,
            LookupOutcome::NotFound => 0,
            LookupOutcome::Success => 1,
            LookupOutcome::ShouldReturn => 2,
        }
    }
}

/// How one lookup call ended: the record was found and serialized whole, no
/// candidate file held a match, or the record was found but did not fit the
/// caller's output region.
#[derive(Clone, Copy, PartialEq, Eq, Structural, Debug)]
pub enum LookupStatus {
    Success,
    NotFound,
    BufferTooSmall,
}

/// The outcome reported to the dispatcher for each lookup status. A record
/// that was found but did not fit the caller's region is reported as
/// try-again, distinct from not-found: the record does exist.
pub fn outcome_of(st: LookupStatus) -> (r: LookupOutcome)
    ensures
        st == LookupStatus::Success ==> r == LookupOutcome::Success,
        st == LookupStatus::NotFound ==> r == LookupOutcome::NotFound,
        st == LookupStatus::BufferTooSmall ==> r == LookupOutcome::TryAgain,
{
    match st {
        LookupStatus::Success => LookupOutcome::Success,
        LookupStatus::NotFound => LookupOutcome::NotFound,
        LookupStatus::BufferTooSmall => LookupOutcome::TryAgain,
    }
}

/// Begin-enumeration is accepted and is a no-op: no enumeration state exists.
pub fn begin_enumeration() -> (r: LookupOutcome)
    ensures
        r == LookupOutcome::Success,
{
    LookupOutcome::Success
}

/// End-enumeration is accepted and is a no-op: no enumeration state exists.
pub fn end_enumeration() -> (r: LookupOutcome)
    ensures
        r == LookupOutcome::Success,
{
    LookupOutcome::Success
}

/// Sequential get-next-entry is not supported by this source.
pub fn next_entry() -> (r: LookupOutcome)
    ensures
        r == LookupOutcome::Unavailable,
{
    LookupOutcome::Unavailable
}

} // verus!
