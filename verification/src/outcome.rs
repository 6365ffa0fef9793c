use vstd::prelude::*;

use crate::sink::TransportError;

verus! {

/// The single answer a submission produces: the downstream append either
/// happened, or failed with a transport error. Exactly one of these is
/// delivered per submitted record.
pub enum SubmissionResult {
    Success,
    Failure(TransportError),
}

/// The pool could not accept or finish the hand-off at all (shut down,
/// channel closed). Distinct from a `TransportError`: it means the bridge
/// itself is unhealthy, not the downstream service.
pub struct DispatchFailure {
    pub detail: String,
}

/// What a sink verdict means as a submission result: a successful append is
/// `Success`, and any transport error is carried into `Failure` unchanged.
pub open spec fn outcome_spec(verdict: Result<(), TransportError>) -> SubmissionResult {
    match verdict {
        Ok(()) => SubmissionResult::Success,
        Err(e) => SubmissionResult::Failure(e),
    }
}

/// Maps the sink's verdict for one record to the submission's result.
/// No retry, no partial result: the verdict is final for this submission.
pub fn outcome_of(verdict: Result<(), TransportError>) -> (r: SubmissionResult)
    ensures
        r == outcome_spec(verdict),
{
    match verdict {
        Ok(()) => SubmissionResult::Success,
        Err(e) => SubmissionResult::Failure(e),
    }
}

/// The response status owed for a finished submission: success of the
/// dispatch and of the append answers with the success status, anything
/// else with the server-error status.
pub open spec fn status_spec(outcome: Result<SubmissionResult, DispatchFailure>) -> u16 {
    match outcome {
        Ok(SubmissionResult::Success) => 200u16,
        _ => 500u16,
    }
}

/// Maps a finished submission (or a failed hand-off) to the response status.
///
/// A `DispatchFailure` answers with the same server-error status as a failed
/// append, but reaches this point through a different arm: the caller sees a
/// failure either way, and no error is silently swallowed.
pub fn submission_status(outcome: &Result<SubmissionResult, DispatchFailure>) -> (s: u16)
    ensures
        s == status_spec(*outcome),
        s == 200 <==> (*outcome matches Ok(SubmissionResult::Success)),
        s == 200 || s == 500,
{
    match outcome {
        Ok(SubmissionResult::Success) => 200,
        Ok(SubmissionResult::Failure(_)) => 500,
        Err(_) => 500,
    }
}

/// The status for a pre-flight request: always immediate success. A
/// pre-flight never constructs a submission, so it cannot reach the pool or
/// the sink, whatever state either is in.
pub fn preflight_status() -> (s: u16)
    ensures
        s == 200,
{
    200
}

/// A failed append is reported: if the sink returned an error, the
/// submission's result is not `Success` and the response is the
/// server-error status.
pub proof fn lemma_sink_failure_is_reported(verdict: Result<(), TransportError>)
    requires
        verdict is Err,
    ensures
        !(outcome_spec(verdict) is Success),
        status_spec(Ok(outcome_spec(verdict))) == 500,
{
}

/// A successful append is acknowledged: if the sink returned success, the
/// submission's result is `Success` and the response is the success status.
pub proof fn lemma_sink_success_is_acknowledged(verdict: Result<(), TransportError>)
    requires
        verdict is Ok,
    ensures
        outcome_spec(verdict) is Success,
        status_spec(Ok(outcome_spec(verdict))) == 200,
{
}

} // verus!
