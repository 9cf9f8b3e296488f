//! The errors that the client's logic produces, and the classification of unsuccessful
//! responses. Failures of the transport itself are reported by the HTTP layer.

use std::time::Duration;
use vstd::prelude::*;

verus! {

/// Errors returned by the client.
#[derive(Debug)]
pub enum Error {
    /// The model named in the request is not known to the service.
    ModelNotFound,
    /// The caller sent too many requests in too short an interval.
    TooManyRequests,
    /// The model is busy: its queue is full.
    Busy,
    /// The service itself is unavailable, most likely while restarting.
    Unavailable,
    /// No response arrived within the given time.
    ClientTimeout(Duration),
    /// Any other unsuccessful status, with the body as received.
    Http { status: u16, body: String },
    /// A tokenizer description could not be read.
    InvalidTokenizer { deserialization_error: String },
    /// A stream event could not be decoded into the shape the task expects: the cause,
    /// and the payload as received.
    InvalidStream { deserialization_error: String, payload: String },
}

/// The outcome of classifying a response, without the transport variants.
pub open spec fn http_outcome(status: u16, body: Seq<char>, api_code: Option<Seq<char>>) -> Option<
    HttpOutcome,
> {
    if 200 <= status <= 299 {
        None
    } else if status == 429 {
        Some(HttpOutcome::TooManyRequests)
    } else if status == 404 && api_code == Some("UNKNOWN_MODEL"@) {
        Some(HttpOutcome::ModelNotFound)
    } else if status == 503 {
        if api_code == Some("QUEUE_FULL"@) {
            Some(HttpOutcome::Busy)
        } else {
            Some(HttpOutcome::Unavailable)
        }
    } else {
        Some(HttpOutcome::Http { status, body })
    }
}

/// The error kinds that a status code and body can give, over plain values.
pub ghost enum HttpOutcome {
    ModelNotFound,
    TooManyRequests,
    Busy,
    Unavailable,
    Http { status: u16, body: Seq<char> },
}

/// Whether an error is the one that `outcome` describes.
pub open spec fn is_outcome(e: Error, outcome: HttpOutcome) -> bool {
    match outcome {
        HttpOutcome::ModelNotFound => e is ModelNotFound,
        HttpOutcome::TooManyRequests => e is TooManyRequests,
        HttpOutcome::Busy => e is Busy,
        HttpOutcome::Unavailable => e is Unavailable,
        HttpOutcome::Http { status, body } => e matches Error::Http { status: s, body: b } && s
            == status && b@ == body,
    }
}

/// The text of an optional error code.
pub open spec fn code_view(code: Option<String>) -> Option<Seq<char>> {
    match code {
        Some(c) => Some(c@),
        None => None,
    }
}

/// Classifies a response by its status code and, where the code is ambiguous, by the
/// machine-readable error code that the service put in the body (`api_code`, when the
/// body carries one). A successful status gives `Ok`.
pub fn translate_http_error(status: u16, body: String, api_code: Option<String>) -> (r: Result<
    (),
    Error,
>)
    ensures
        r is Ok <==> http_outcome(status, body@, code_view(api_code)) is None,
        r matches Err(e) ==> is_outcome(
            e,
            http_outcome(status, body@, code_view(api_code))->Some_0,
        ),
{
    if 200 <= status && status <= 299 {
        return Ok(());
    }
    let unknown_model = String::from_str("UNKNOWN_MODEL");
    let queue_full = String::from_str("QUEUE_FULL");
    let (is_unknown_model, is_queue_full) = match &api_code {
        Some(code) => (*code == unknown_model, *code == queue_full),
        None => (false, false),
    };
    if status == 429 {
        Err(Error::TooManyRequests)
    } else if status == 404 && is_unknown_model {
        Err(Error::ModelNotFound)
    } else if status == 503 {
        if is_queue_full {
            Err(Error::Busy)
        } else {
            Err(Error::Unavailable)
        }
    } else {
        Err(Error::Http { status, body })
    }
}

} // verus!
