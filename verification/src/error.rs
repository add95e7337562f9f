//! Error types of the validation host.
//!
//! Two classes are kept apart: job-level errors, scoped to one artifact or
//! one request, which are cached or delivered to the caller and never stop
//! the host; and fatal errors, which mean the host's own plumbing is broken
//! and the event loop must stop.

use vstd::prelude::*;
use vstd::string::StringExecFns;

verus! {

/// A job-level error of artifact preparation. It is cached permanently for
/// the artifact and replayed to every later requester without retrying.
#[derive(Debug)]
pub enum PrepareError {
    /// The candidate was rejected before compilation started.
    Prevalidation(String),
    /// Compiling the candidate failed.
    Preparation(String),
    /// The preparation worker panicked while processing the candidate.
    Panic(String),
    /// The allotted preparation time elapsed.
    TimedOut,
}

/// Outcome of preparing one artifact.
pub type PrepareResult = Result<(), PrepareError>;

/// Mathematical value of a [`PrepareError`].
pub enum PrepareErrorView {
    Prevalidation(Seq<char>),
    Preparation(Seq<char>),
    Panic(Seq<char>),
    TimedOut,
}

impl View for PrepareError {
    type V = PrepareErrorView;

    open spec fn view(&self) -> PrepareErrorView {
        match self {
            PrepareError::Prevalidation(s) => PrepareErrorView::Prevalidation(s@),
            PrepareError::Preparation(s) => PrepareErrorView::Preparation(s@),
            PrepareError::Panic(s) => PrepareErrorView::Panic(s@),
            PrepareError::TimedOut => PrepareErrorView::TimedOut,
        }
    }
}

impl Clone for PrepareError {
    fn clone(&self) -> (r: Self)
        ensures
            r@ == self@,
    {
        match self {
            PrepareError::Prevalidation(s) => PrepareError::Prevalidation(s.clone()),
            PrepareError::Preparation(s) => PrepareError::Preparation(s.clone()),
            PrepareError::Panic(s) => PrepareError::Panic(s.clone()),
            PrepareError::TimedOut => PrepareError::TimedOut,
        }
    }
}

/// A reason why a candidate's execution concluded it invalid.
#[derive(Debug)]
pub enum InvalidCandidate {
    /// The execution worker reported this error about the candidate.
    WorkerReportedError(String),
    /// The execution worker died while the candidate ran; whether the
    /// candidate caused it cannot be told.
    AmbiguousWorkerDeath,
    /// The execution wall-clock limit elapsed.
    HardTimeout,
}

/// Mathematical value of an [`InvalidCandidate`].
pub enum InvalidCandidateView {
    WorkerReportedError(Seq<char>),
    AmbiguousWorkerDeath,
    HardTimeout,
}

impl View for InvalidCandidate {
    type V = InvalidCandidateView;

    open spec fn view(&self) -> InvalidCandidateView {
        match self {
            InvalidCandidate::WorkerReportedError(s) => {
                InvalidCandidateView::WorkerReportedError(s@)
            },
            InvalidCandidate::AmbiguousWorkerDeath => InvalidCandidateView::AmbiguousWorkerDeath,
            InvalidCandidate::HardTimeout => InvalidCandidateView::HardTimeout,
        }
    }
}

impl Clone for InvalidCandidate {
    fn clone(&self) -> (r: Self)
        ensures
            r@ == self@,
    {
        match self {
            InvalidCandidate::WorkerReportedError(s) => {
                InvalidCandidate::WorkerReportedError(s.clone())
            },
            InvalidCandidate::AmbiguousWorkerDeath => InvalidCandidate::AmbiguousWorkerDeath,
            InvalidCandidate::HardTimeout => InvalidCandidate::HardTimeout,
        }
    }
}

/// An error delivered to an execute caller.
#[derive(Debug)]
pub enum ValidationError {
    /// A failure of the host or the preparation pipeline, saying nothing
    /// about the candidate itself.
    InternalError(String),
    /// A finding about the candidate itself: it is invalid.
    InvalidCandidate(InvalidCandidate),
}

/// Mathematical value of a [`ValidationError`].
pub enum ValidationErrorView {
    InternalError(Seq<char>),
    InvalidCandidate(InvalidCandidateView),
}

impl View for ValidationError {
    type V = ValidationErrorView;

    open spec fn view(&self) -> ValidationErrorView {
        match self {
            ValidationError::InternalError(s) => ValidationErrorView::InternalError(s@),
            ValidationError::InvalidCandidate(i) => ValidationErrorView::InvalidCandidate(i@),
        }
    }
}

impl Clone for ValidationError {
    fn clone(&self) -> (r: Self)
        ensures
            r@ == self@,
    {
        match self {
            ValidationError::InternalError(s) => ValidationError::InternalError(s.clone()),
            ValidationError::InvalidCandidate(i) => ValidationError::InvalidCandidate(i.clone()),
        }
    }
}

/// How a cached preparation error reads when it answers an execute request:
/// an internal error, never a finding about the candidate itself.
pub open spec fn validation_error_of_prepare_error(e: PrepareErrorView) -> ValidationErrorView {
    ValidationErrorView::InternalError(prepare_error_tag(e))
}

/// The message carried by the internal error that stands for a cached
/// preparation error: the detail string of the variant, or a fixed word for
/// the time-out.
pub open spec fn prepare_error_tag(e: PrepareErrorView) -> Seq<char> {
    match e {
        PrepareErrorView::Prevalidation(s) => s,
        PrepareErrorView::Preparation(s) => s,
        PrepareErrorView::Panic(s) => s,
        PrepareErrorView::TimedOut => "preparation timed out"@,
    }
}

impl ValidationError {
    /// Translates a cached preparation error into the error an execute
    /// caller receives.
    pub fn from_prepare_error(e: &PrepareError) -> (r: ValidationError)
        ensures
            r@ == validation_error_of_prepare_error(e@),
    {
        match e {
            PrepareError::Prevalidation(s) => ValidationError::InternalError(s.clone()),
            PrepareError::Preparation(s) => ValidationError::InternalError(s.clone()),
            PrepareError::Panic(s) => ValidationError::InternalError(s.clone()),
            PrepareError::TimedOut => {
                ValidationError::InternalError(String::from_str("preparation timed out"))
            },
        }
    }
}

/// An error that breaks the host's own plumbing: a downstream queue or task
/// is gone, so the event loop must stop. Callers of the host observe this
/// only as their result channels being dropped.
#[derive(Clone, Copy, Debug, PartialEq, Eq, Structural)]
pub enum FatalError {
    /// The prepare queue no longer accepts jobs.
    PrepareQueueClosed,
    /// The execute queue no longer accepts jobs.
    ExecuteQueueClosed,
    /// The sweeper no longer accepts file paths.
    SweeperClosed,
}

/// An error observed by the host's event loop: either fatal, or scoped to
/// one job and described by a message that is merely worth noting.
#[derive(Debug)]
pub enum HostError {
    /// The host must shut down.
    Fatal(FatalError),
    /// A job-scoped failure; the loop goes on.
    JobLevel(String),
}

/// Mathematical value of a [`HostError`].
pub enum HostErrorView {
    Fatal(FatalError),
    JobLevel(Seq<char>),
}

impl View for HostError {
    type V = HostErrorView;

    open spec fn view(&self) -> HostErrorView {
        match self {
            HostError::Fatal(f) => HostErrorView::Fatal(*f),
            HostError::JobLevel(s) => HostErrorView::JobLevel(s@),
        }
    }
}

/// Splits an event-loop step's outcome into what must stop the host and what
/// is merely noted: a fatal error passes through, a job-level one is
/// swallowed. The `ctx` string names the step for the record and does not
/// affect the result.
pub fn log_error(result: Result<(), HostError>, ctx: &str) -> (r: Result<(), FatalError>)
    ensures
        match result {
            Ok(()) => r is Ok,
            Err(e) => match e@ {
                HostErrorView::Fatal(f) => r == Result::<(), FatalError>::Err(f),
                HostErrorView::JobLevel(_) => r is Ok,
            },
        },
{
    match result {
        Ok(()) => Ok(()),
        Err(HostError::Fatal(f)) => Err(f),
        Err(HostError::JobLevel(_)) => Ok(()),
    }
}

} // verus!
