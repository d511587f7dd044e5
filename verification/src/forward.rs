//! What the gateway sends back for one forwarded request.
//!
//! The HTTP exchange itself happens outside this library; these functions
//! decide, from the plain values that exchange produced, exactly what the
//! caller receives: the upstream reply relayed verbatim, or one of the two
//! Bad Gateway outcomes.

use vstd::prelude::*;
use vstd::string::StringExecFns;

verus! {

/// Why the upstream's reply could not be relayed.
#[derive(Clone, Copy, Debug, PartialEq, Eq, Structural)]
pub enum ForwardError {
    /// No reply was obtained: the send itself failed.
    SendFailed,
    /// A reply arrived but its body could not be fully read.
    BodyReadFailed,
}

/// The plain-text body of the Bad Gateway reply for each failure.
pub open spec fn forward_error_text(e: ForwardError) -> Seq<char> {
    match e {
        ForwardError::SendFailed => "Failed to forward request"@,
        ForwardError::BodyReadFailed => "Failed to read backend response"@,
    }
}

/// The reply relayed to the caller.
#[derive(Debug)]
pub struct ProxyResponse {
    pub status: u16,
    pub content_type: String,
    pub body: Vec<u8>,
}

/// Assembles the reply from what was read off the upstream response: its
/// status, its content-type header if it had one, and its body if it
/// could be read.  The body is relayed unmodified; a missing content-type
/// falls back to `application/json`.
pub fn build_proxy_response(
    status: u16,
    content_type: Option<String>,
    body: Option<Vec<u8>>,
) -> (r: Result<ProxyResponse, ForwardError>)
    ensures
        body is Some ==> (r matches Ok(p) && p.status == status && p.body@ == body->0@
            && p.content_type@ == (match content_type {
            Some(c) => c@,
            None => "application/json"@,
        })),
        body is None ==> r == Err::<ProxyResponse, ForwardError>(ForwardError::BodyReadFailed),
{
    let b = match body {
        Some(b) => b,
        None => {
            return Err(ForwardError::BodyReadFailed);
        },
    };
    let ct = match content_type {
        Some(c) => c,
        None => String::from_str("application/json"),
    };
    Ok(ProxyResponse { status, content_type: ct, body: b })
}

/// The Bad Gateway reply owed for a failure: status 502 and the failure's
/// plain-text body.
pub fn forward_failure_reply(e: &ForwardError) -> (r: (u16, String))
    ensures
        r.0 == 502u16,
        r.1@ == forward_error_text(*e),
{
    let msg = match e {
        ForwardError::SendFailed => String::from_str("Failed to forward request"),
        ForwardError::BodyReadFailed => String::from_str("Failed to read backend response"),
    };
    (502, msg)
}

} // verus!
