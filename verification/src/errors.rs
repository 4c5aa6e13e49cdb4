//! Outbound-client error kinds and the *temporary* predicate that
//! decides retry eligibility: transport timeouts and connection
//! failures, every server-side status, and the throttling statuses.

use vstd::prelude::*;

verus! {

/// Error surface of the rate-limited client.
#[derive(Clone, Copy, PartialEq, Eq, Structural, Debug)]
pub enum EsiError {
    /// Transport-level failure, with what the transport reported.
    RequestError { timeout: bool, connect: bool },
    /// Non-success status outside the auth and server ranges.
    ApiError { status: u16 },
    /// 401 or 403.
    AuthError,
    /// Undecodable body.
    ParseError,
    /// 5xx body.
    ServerError,
}

/// The error kind a non-success HTTP status maps to.
pub open spec fn spec_classify_status(status: u16) -> EsiError {
    if status == 401 || status == 403 {
        EsiError::AuthError
    } else if 500 <= status <= 599 {
        EsiError::ServerError
    } else {
        EsiError::ApiError { status }
    }
}

/// Map a non-success HTTP status to its error kind: 401/403 are auth
/// failures, 5xx are server failures, anything else is an API error
/// carrying its status.
pub fn classify_status(status: u16) -> (r: EsiError)
    ensures
        r == spec_classify_status(status),
{
    if status == 401 || status == 403 {
        EsiError::AuthError
    } else if 500 <= status && status <= 599 {
        EsiError::ServerError
    } else {
        EsiError::ApiError { status }
    }
}

/// Exactly the transient failures: transport timeout or connect
/// failure, any 5xx, and the 429/502/503 statuses.
pub open spec fn spec_is_temporary(e: EsiError) -> bool {
    match e {
        EsiError::RequestError { timeout, connect } => timeout || connect,
        EsiError::ServerError => true,
        EsiError::ApiError { status } => status == 429 || status == 503 || status == 502,
        EsiError::AuthError => false,
        EsiError::ParseError => false,
    }
}

impl EsiError {
    /// Whether a retry may help.
    pub fn is_temporary(&self) -> (r: bool)
        ensures
            r == spec_is_temporary(*self),
    {
        match self {
            EsiError::RequestError { timeout, connect } => *timeout || *connect,
            EsiError::ServerError => true,
            EsiError::ApiError { status } => *status == 429 || *status == 503 || *status == 502,
            EsiError::AuthError => false,
            EsiError::ParseError => false,
        }
    }
}

/// Retry policy of the catalogue fetch helper: try again only while the
/// error is temporary and attempts remain.
pub fn should_retry_fetch(e: &EsiError, attempt: u32, max_retries: u32) -> (r: bool)
    ensures
        r == (spec_is_temporary(*e) && attempt < max_retries),
{
    e.is_temporary() && attempt < max_retries
}

} // verus!
