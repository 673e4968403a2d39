//! Single-record submission: what each response to a posted record means,
//! with one retry under a fresh token on authentication expiry.  The POST
//! and the courtesy delay before it live outside.

use vstd::prelude::*;

verus! {

/// Milliseconds to wait before every submission, as courtesy rate limiting
/// toward the remote service.
pub const SUBMIT_DELAY_MILLIS: u64 = 500;

/// A terminal failure of one submission; it does not abort the run.
#[derive(Debug, Clone)]
pub enum SubmitError {
    /// A second unauthorized response.
    AuthExpired,
    /// Any other non-success status, with the response body.
    Rejected { status: u16, body: String },
}

/// What to do after one response to a posted record.
#[derive(Debug, Clone)]
pub enum SubmitStep {
    /// The record is imported; success carries no payload.
    Imported,
    /// Refresh the token and post once more.
    RetryWithFreshToken,
    /// The submission failed.
    Failed(SubmitError),
}

/// The abstract classification of a submission response.
#[derive(Clone, Copy, PartialEq, Eq, Structural, Debug)]
pub enum SubmitClass {
    Imported,
    Retry,
    FailedAuth,
    FailedRejected,
}

/// How a response status classifies, given whether a fresh token was already
/// tried: success imports; the first unauthorized response retries once; a
/// second is terminal with the expiry reason; anything else is rejected.
pub open spec fn spec_submit_class(status: u16, auth_retried: bool) -> SubmitClass {
    if 200 <= status < 300 {
        SubmitClass::Imported
    } else if status == 401 && !auth_retried {
        SubmitClass::Retry
    } else if status == 401 {
        SubmitClass::FailedAuth
    } else {
        SubmitClass::FailedRejected
    }
}

/// Decides what one response to a posted record means.
pub fn submit_response(status: u16, auth_retried: bool, body: &str) -> (r: SubmitStep)
    ensures
        spec_submit_class(status, auth_retried) == SubmitClass::Imported ==>
            (r matches SubmitStep::Imported),
        spec_submit_class(status, auth_retried) == SubmitClass::Retry ==>
            (r matches SubmitStep::RetryWithFreshToken),
        spec_submit_class(status, auth_retried) == SubmitClass::FailedAuth ==>
            (r matches SubmitStep::Failed(SubmitError::AuthExpired)),
        spec_submit_class(status, auth_retried) == SubmitClass::FailedRejected ==>
            (r matches SubmitStep::Failed(SubmitError::Rejected { status: st, body: b })
                && st == status && b@ == body@),
{
    if 200 <= status && status < 300 {
        SubmitStep::Imported
    } else if status == 401 && !auth_retried {
        SubmitStep::RetryWithFreshToken
    } else if status == 401 {
        SubmitStep::Failed(SubmitError::AuthExpired)
    } else {
        SubmitStep::Failed(SubmitError::Rejected { status, body: body.to_owned() })
    }
}

/// One unauthorized response then a success is reported as imported, with
/// the token refreshed exactly once; two unauthorized responses in a row
/// fail with the authentication-expiry reason.
pub proof fn lemma_submission_retry(ok_status: u16)
    requires 200 <= ok_status < 300,
    ensures
        spec_submit_class(401, false) == SubmitClass::Retry,
        spec_submit_class(ok_status, true) == SubmitClass::Imported,
        spec_submit_class(401, true) == SubmitClass::FailedAuth,
{
}

} // verus!
