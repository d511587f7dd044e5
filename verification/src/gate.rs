//! The per-request gate: token verification followed by the quota check,
//! with each refusal mapped to the HTTP reply it owes the caller.

use vstd::prelude::*;
use vstd::string::StringExecFns;

use crate::crypto::b64url_of;
use crate::ratelimit::rl_step;
use crate::state::AppState;
use crate::state::find_rl;
use crate::token::AuthToken;
use crate::token::TokenError;
use crate::token::verify_text_outcome;
use crate::token::verify_token_at;

verus! {

/// A token that has passed the whole gate.
#[derive(Debug)]
pub struct VerifiedToken(pub AuthToken);

/// Why a request was turned away before forwarding.
#[derive(Debug, PartialEq, Eq, Structural)]
pub enum GateError {
    TokenMissing,
    TokenExpired,
    InvalidApiKey,
    RateLimited,
}

/// The message carried in the JSON error body.
pub open spec fn message_text(e: GateError) -> Seq<char> {
    match e {
        GateError::TokenMissing => "token missing"@,
        GateError::TokenExpired => "token expired"@,
        GateError::InvalidApiKey => "invalid api key provided"@,
        GateError::RateLimited => "rate limit exceeded"@,
    }
}

/// The error body: a JSON object with the one `message` field.
pub open spec fn error_body_text(e: GateError) -> Seq<char> {
    "{\"message\":\""@ + message_text(e) + "\"}"@
}

impl GateError {
    /// The HTTP status this refusal maps to.
    pub fn status_code(&self) -> (r: u16)
        ensures
            r == (match *self {
                GateError::RateLimited => 429u16,
                _ => 401u16,
            }),
    {
        match self {
            GateError::RateLimited => 429,
            _ => 401,
        }
    }

    /// The message of the JSON error body.
    pub fn message(&self) -> (r: String)
        ensures
            r@ == message_text(*self),
    {
        match self {
            GateError::TokenMissing => String::from_str("token missing"),
            GateError::TokenExpired => String::from_str("token expired"),
            GateError::InvalidApiKey => String::from_str("invalid api key provided"),
            GateError::RateLimited => String::from_str("rate limit exceeded"),
        }
    }

    /// The whole JSON error body.
    pub fn error_body(&self) -> (r: String)
        ensures
            r@ == error_body_text(*self),
    {
        let mut out = String::from_str("{\"message\":\"");
        let msg = self.message();
        out.append(msg.as_str());
        out.append("\"}");
        out
    }
}

/// Admits or refuses one request: the token (from the query string, if it
/// was there at all) is verified against the service secret at wall-clock
/// time `now_unix_secs`, and the verified user's window is then charged at
/// the monotonic reading `now_mono_ms`.  Nothing is charged for a request
/// whose token is missing or bad.
pub fn authorize_request(
    state: &mut AppState,
    token: Option<&str>,
    now_unix_secs: u64,
    now_mono_ms: u64,
) -> (r: Result<VerifiedToken, GateError>)
    requires
        old(state).wf(),
    ensures
        final(state).wf(),
        final(state).settings == old(state).settings,
        final(state).user_rpc_method_state == old(state).user_rpc_method_state,
        token is None ==> (r == Err::<VerifiedToken, GateError>(GateError::TokenMissing)
            && *final(state) == *old(state)),
        token is Some ==> forall|j: Seq<char>|
            token->0@ == b64url_of(#[trigger] vstd::utf8::encode_utf8(j)) ==> (match
                verify_text_outcome(old(state).settings.app.secret_key@, j, now_unix_secs) {
                Err(e) => if e == TokenError::Expired {
                    &&& r == Err::<VerifiedToken, GateError>(GateError::TokenExpired)
                    &&& *final(state) == *old(state)
                } else {
                    &&& r == Err::<VerifiedToken, GateError>(GateError::InvalidApiKey)
                    &&& *final(state) == *old(state)
                },
                Ok(f) => {
                    let st = rl_step(
                        find_rl(old(state).user_rate_limit_state@, f.0),
                        f.2,
                        now_mono_ms,
                    );
                    &&& find_rl(final(state).user_rate_limit_state@, f.0) == Some(st.0)
                    &&& (st.1 ==> (r matches Ok(v) && v.0.user@ == f.0 && v.0.exp == f.1
                        && v.0.qps == f.2))
                    &&& (!st.1 ==> r == Err::<VerifiedToken, GateError>(GateError::RateLimited))
                    &&& forall|u: Seq<char>|
                        u != f.0 ==> find_rl(final(state).user_rate_limit_state@, u) == find_rl(
                            old(state).user_rate_limit_state@,
                            u,
                        )
                },
            }),
        (token is Some && (forall|j: Seq<char>|
            token->0@ != b64url_of(#[trigger] vstd::utf8::encode_utf8(j)))) ==> (r == Err::<
            VerifiedToken,
            GateError,
        >(GateError::InvalidApiKey) && *final(state) == *old(state)),
{
    let t = match token {
        Some(t) => t,
        None => {
            return Err(GateError::TokenMissing);
        },
    };
    let auth = match verify_token_at(t, state.settings.app.secret_key.as_str(), now_unix_secs) {
        Ok(a) => a,
        Err(e) => {
            return Err(
                match e {
                    TokenError::Expired => GateError::TokenExpired,
                    _ => GateError::InvalidApiKey,
                },
            );
        },
    };
    let allowed = state.update_and_check_rate_limit(auth.user.as_str(), auth.qps, now_mono_ms);
    if !allowed {
        return Err(GateError::RateLimited);
    }
    Ok(VerifiedToken(auth))
}

} // verus!
