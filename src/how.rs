//! Per-request settings, and how they shape the request.

use crate::tracing::TraceContext;
use std::time::Duration;
use vstd::prelude::*;

verus! {

/// Controls of how to execute a task.
#[derive(Debug)]
pub struct How {
    /// Ask the service to lower the priority of this request, to reduce load for other
    /// users. Makes [`crate::Error::Busy`] more likely.
    pub be_nice: bool,
    /// The longest the client waits for a response before it gives up.
    pub client_timeout: Duration,
    /// Token for this request; takes priority over the client's token.
    pub api_token: Option<String>,
    /// Trace context to propagate with the request.
    pub trace_context: Option<TraceContext>,
}

/// Seconds the service works on a request before it cancels it.
pub const SERVICE_TIMEOUT_SECS: u64 = 300;

/// Seconds the client waits beyond the service's own limit, for network delays.
pub const NETWORK_MARGIN_SECS: u64 = 5;

/// Relies on `Duration::from_secs`: a duration of whole seconds.
#[verifier::external_body]
fn duration_from_secs(secs: u64) -> Duration {
    Duration::from_secs(secs)
}

impl Default for How {
    /// Not nice, no token or trace context of its own, and a timeout a little longer than
    /// the service's.
    fn default() -> (r: How)
        ensures
            !r.be_nice,
            r.api_token is None,
            r.trace_context is None,
    {
        How {
            be_nice: false,
            client_timeout: duration_from_secs(SERVICE_TIMEOUT_SECS + NETWORK_MARGIN_SECS),
            api_token: None,
            trace_context: None,
        }
    }
}

impl How {
    /// The query parameters of a request: `nice=true` for a nice request; nothing
    /// otherwise, since not being nice is the service's default.
    pub fn query(&self) -> (r: Vec<(&'static str, &'static str)>)
        ensures
            r@.len() == if self.be_nice {
                1int
            } else {
                0int
            },
            self.be_nice ==> r@[0].0@ == "nice"@ && r@[0].1@ == "true"@,
    {
        let mut q = Vec::new();
        if self.be_nice {
            q.push(("nice", "true"));
        }
        q
    }
}

/// The token to authenticate a request with: the request's own, else the client's.
pub fn select_api_token(per_request: Option<String>, default: Option<String>) -> (r: Option<String>)
    ensures
        r == (if per_request is Some {
            per_request
        } else {
            default
        }),
{
    match per_request {
        Some(token) => Some(token),
        None => default,
    }
}

/// The value of the `Authorization` header for a token.
pub fn bearer(api_token: &str) -> (r: String)
    ensures
        r@ == "Bearer "@ + api_token@,
{
    let mut value = String::from_str("Bearer ");
    value.append(api_token);
    value
}

} // verus!
