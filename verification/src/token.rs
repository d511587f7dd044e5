//! The stateless signed-token protocol: issuing and verifying access
//! tokens that carry a user, an absolute expiry, and a per-second quota.
//!
//! A token is `base64url(record)` where the record is the canonical JSON
//! text of `wire`, and its `sig` field is `base64url(HMAC-SHA256(signable))`
//! keyed with the server secret.

use vstd::prelude::*;
use vstd::string::StrSliceExecFns;
use vstd::string::StringExecFns;

use crate::clock::now_secs;
use crate::crypto::b64url_encode;
use crate::crypto::b64url_decode;
use crate::crypto::b64url_of;
use crate::crypto::bytes_to_string;
use crate::crypto::ct_str_eq;
use crate::crypto::hmac_sha256;
use crate::crypto::hmac_sha256_of;
use crate::wire::opt_text;
use crate::wire::parse_token;
use crate::wire::parse_token_text;
use crate::wire::record_string_of;
use crate::wire::record_text;
use crate::wire::signable_string_of;
use crate::wire::signable_text;
use crate::wire::lemma_parse_of_record;
use crate::wire::lemma_parse_sound;

verus! {

/// An access token, as carried on the wire.
#[derive(Debug)]
pub struct AuthToken {
    pub user: String,
    pub exp: u64,
    pub qps: u32,
    pub sig: Option<String>,
}

/// Why a token was not issued or not accepted.
#[derive(Debug, PartialEq, Eq, Structural)]
pub enum TokenError {
    SerializationError,
    InvalidSecret,
    DecodeError,
    InvalidSignature,
    MissingSignature,
    Expired,
}

/// The signature text for the given fields under `secret`.
pub open spec fn sig_text_of(secret: Seq<char>, user: Seq<char>, exp: u64, qps: u32) -> Seq<
    char,
> {
    b64url_of(hmac_sha256_of(secret, signable_text(user, exp, qps)))
}

/// The whole token text for the given fields under `secret`.
pub open spec fn token_text_of(secret: Seq<char>, user: Seq<char>, exp: u64, qps: u32) -> Seq<
    char,
> {
    b64url_of(
        vstd::utf8::encode_utf8(record_text(user, exp, qps, sig_text_of(secret, user, exp, qps))),
    )
}

/// What verification decides about a decoded record text `j` at time `now`:
/// the accepted fields, or the error, checked in this order: shape,
/// signature presence, signature match, expiry.
pub open spec fn verify_text_outcome(secret: Seq<char>, j: Seq<char>, now: u64) -> Result<
    (Seq<char>, u64, u32, Seq<char>),
    TokenError,
> {
    match parse_token_text(j) {
        None => Err(TokenError::DecodeError),
        Some(f) => match f.3 {
            None => Err(TokenError::MissingSignature),
            Some(sg) => if sg != sig_text_of(secret, f.0, f.1, f.2) {
                Err(TokenError::InvalidSignature)
            } else if f.1 < now {
                Err(TokenError::Expired)
            } else {
                Ok((f.0, f.1, f.2, sg))
            },
        },
    }
}

/// Whether the returned value says exactly what the outcome says.
pub open spec fn outcome_matches(
    r: Result<AuthToken, TokenError>,
    o: Result<(Seq<char>, u64, u32, Seq<char>), TokenError>,
) -> bool {
    match o {
        Err(e) => r == Err::<AuthToken, TokenError>(e),
        Ok(f) => match r {
            Ok(t) => t.user@ == f.0 && t.exp == f.1 && t.qps == f.2 && match t.sig {
                Some(s) => s@ == f.3,
                None => false,
            },
            Err(_) => false,
        },
    }
}

impl AuthToken {
    /// The canonical signable representation: exactly the signed fields, in
    /// fixed order, with no extra whitespace.
    pub fn signable_string(&self) -> (r: Result<String, TokenError>)
        ensures
            r is Ok,
            r->Ok_0@ == signable_text(self.user@, self.exp, self.qps),
    {
        Ok(signable_string_of(self.user.as_str(), self.exp, self.qps))
    }

    /// Computes the signature of the signable fields under `secret`; with
    /// `fill` it is also stored in the token.
    pub fn compute_signature(&mut self, secret: &str, fill: bool) -> (r: Result<
        String,
        TokenError,
    >)
        ensures
            r is Ok,
            r->Ok_0@ == sig_text_of(secret@, old(self).user@, old(self).exp, old(self).qps),
            final(self).user == old(self).user,
            final(self).exp == old(self).exp,
            final(self).qps == old(self).qps,
            fill ==> (final(self).sig matches Some(s) && s@ == sig_text_of(
                secret@,
                old(self).user@,
                old(self).exp,
                old(self).qps,
            )),
            !fill ==> final(self).sig == old(self).sig,
    {
        let signable = signable_string_of(self.user.as_str(), self.exp, self.qps);
        let tag = hmac_sha256(secret, signable.as_str());
        let sig_str = b64url_encode(&tag);
        if fill {
            self.sig = Some(sig_str.clone());
        }
        Ok(sig_str)
    }

    /// Encodes the whole record as the opaque token string.  A token whose
    /// signature is absent encodes the bare signable fields, as the wire
    /// format leaves an empty `sig` out.
    pub fn generate_token(&self) -> (r: Result<String, TokenError>)
        ensures
            r is Ok,
            match self.sig {
                Some(sg) => r->Ok_0@ == b64url_of(
                    vstd::utf8::encode_utf8(record_text(self.user@, self.exp, self.qps, sg@)),
                ),
                None => r->Ok_0@ == b64url_of(
                    vstd::utf8::encode_utf8(signable_text(self.user@, self.exp, self.qps)),
                ),
            },
    {
        let json = match &self.sig {
            Some(sg) => record_string_of(self.user.as_str(), self.exp, self.qps, sg.as_str()),
            None => signable_string_of(self.user.as_str(), self.exp, self.qps),
        };
        Ok(b64url_encode(&json.as_str().as_bytes_vec()))
    }
}

/// Issues a token for `user` with quota `qps` that expires at `exp`.
pub fn issue_token(secret: &str, user: &str, qps: u32, exp: u64) -> (r: String)
    ensures
        r@ == token_text_of(secret@, user@, exp, qps),
{
    let signable = signable_string_of(user, exp, qps);
    let tag = hmac_sha256(secret, signable.as_str());
    let sig = b64url_encode(&tag);
    let json = record_string_of(user, exp, qps, sig.as_str());
    b64url_encode(&json.as_str().as_bytes_vec())
}

/// Issues a token that expires `ttl_secs` from now, the expiry saturating
/// at the largest representable time.
pub fn generate_token(secret: &str, user: &str, qps: u32, ttl_secs: u64) -> (r: String)
    ensures
        exists|exp: u64| r@ == #[trigger] token_text_of(secret@, user@, exp, qps),
{
    let now = now_secs();
    let exp = if ttl_secs <= u64::MAX - now {
        now + ttl_secs
    } else {
        u64::MAX
    };
    let r = issue_token(secret, user, qps, exp);
    proof {
        assert(r@ == token_text_of(secret@, user@, exp, qps));
    }
    r
}

/// The round trip of the token protocol: the record text that `issue_token`
/// signs and encodes for `(user, qps)` with expiry `exp` is accepted by
/// verification under the same secret at any time not after `exp`, and
/// yields the same user, expiry and quota; after `exp` it is refused as
/// expired, whatever its signature says.
pub proof fn lemma_issue_then_verify(
    secret: Seq<char>,
    user: Seq<char>,
    exp: u64,
    qps: u32,
    now: u64,
)
    ensures
        now <= exp ==> verify_text_outcome(
            secret,
            record_text(user, exp, qps, sig_text_of(secret, user, exp, qps)),
            now,
        ) == Ok::<(Seq<char>, u64, u32, Seq<char>), TokenError>(
            (user, exp, qps, sig_text_of(secret, user, exp, qps)),
        ),
        exp < now ==> verify_text_outcome(
            secret,
            record_text(user, exp, qps, sig_text_of(secret, user, exp, qps)),
            now,
        ) == Err::<(Seq<char>, u64, u32, Seq<char>), TokenError>(TokenError::Expired),
{
    lemma_parse_of_record(user, exp, qps, sig_text_of(secret, user, exp, qps));
}

/// The decoding, parsing and signature checking behind `verify_token_at`.
fn verify_core(token: &str, secret: &str, now: u64) -> (r: Result<AuthToken, TokenError>)
    ensures
        forall|j: Seq<char>|
            token@ == b64url_of(#[trigger] vstd::utf8::encode_utf8(j)) ==> outcome_matches(
                r,
                verify_text_outcome(secret@, j, now),
            ),
        (forall|j: Seq<char>| token@ != b64url_of(#[trigger] vstd::utf8::encode_utf8(j))) ==> r
            == Err::<AuthToken, TokenError>(TokenError::DecodeError),
        r matches Ok(t) ==> (t.sig matches Some(sg) && sg@ == sig_text_of(
            secret@,
            t.user@,
            t.exp,
            t.qps,
        ) && token@ == token_text_of(secret@, t.user@, t.exp, t.qps) && now <= t.exp),
{
    let bytes = match b64url_decode(token) {
        Some(b) => b,
        None => {
            proof {
                assert forall|j: Seq<char>|
                    token@ != b64url_of(#[trigger] vstd::utf8::encode_utf8(j)) by {
                    vstd::utf8::encode_utf8_valid_utf8(j);
                }
            }
            return Err(TokenError::DecodeError);
        },
    };
    let text = match bytes_to_string(bytes) {
        Some(t) => t,
        None => {
            proof {
                assert forall|j: Seq<char>|
                    token@ != b64url_of(#[trigger] vstd::utf8::encode_utf8(j)) by {
                    vstd::utf8::encode_utf8_valid_utf8(j);
                }
            }
            return Err(TokenError::DecodeError);
        },
    };
    proof {
        assert forall|j: Seq<char>|
            token@ == b64url_of(#[trigger] vstd::utf8::encode_utf8(j)) implies j == text@ by {
            vstd::utf8::encode_utf8_decode_utf8(j);
            vstd::utf8::encode_utf8_decode_utf8(text@);
        }
    }
    let parsed = match parse_token(text.as_str()) {
        Some(p) => p,
        None => {
            return Err(TokenError::DecodeError);
        },
    };
    let (user, exp, qps, sig_opt) = parsed;
    let sig = match sig_opt {
        Some(s) => s,
        None => {
            return Err(TokenError::MissingSignature);
        },
    };
    let signable = signable_string_of(user.as_str(), exp, qps);
    let tag = hmac_sha256(secret, signable.as_str());
    let expected = b64url_encode(&tag);
    if !ct_str_eq(sig.as_str(), expected.as_str()) {
        return Err(TokenError::InvalidSignature);
    }
    if exp < now {
        return Err(TokenError::Expired);
    }
    proof {
        lemma_parse_sound(text@);
        assert(text@ == record_text(user@, exp, qps, sig@));
    }
    Ok(AuthToken { user, exp, qps, sig: Some(sig) })
}

/// Verifies `token` under `secret` at time `now`: the token must decode,
/// parse, carry a signature, and the signature must match the recomputed
/// one; only then is the expiry checked.
pub fn verify_token_at(token: &str, secret: &str, now: u64) -> (r: Result<AuthToken, TokenError>)
    ensures
        forall|j: Seq<char>|
            token@ == b64url_of(#[trigger] vstd::utf8::encode_utf8(j)) ==> outcome_matches(
                r,
                verify_text_outcome(secret@, j, now),
            ),
        (forall|j: Seq<char>| token@ != b64url_of(#[trigger] vstd::utf8::encode_utf8(j))) ==> r
            == Err::<AuthToken, TokenError>(TokenError::DecodeError),
        forall|user: Seq<char>, exp: u64, qps: u32|
            token@ == #[trigger] token_text_of(secret@, user, exp, qps) && now <= exp ==> (
            r matches Ok(t) && t.user@ == user && t.exp == exp && t.qps == qps),
        forall|user: Seq<char>, exp: u64, qps: u32|
            token@ == #[trigger] token_text_of(secret@, user, exp, qps) && exp < now ==> r
                == Err::<AuthToken, TokenError>(TokenError::Expired),
        r matches Ok(t) ==> (t.sig matches Some(sg) && sg@ == sig_text_of(
            secret@,
            t.user@,
            t.exp,
            t.qps,
        ) && token@ == token_text_of(secret@, t.user@, t.exp, t.qps) && now <= t.exp),
{
    let r = verify_core(token, secret, now);
    proof {
        assert forall|user: Seq<char>, exp: u64, qps: u32|
            token@ == #[trigger] token_text_of(secret@, user, exp, qps) implies outcome_matches(
            r,
            verify_text_outcome(
                secret@,
                record_text(user, exp, qps, sig_text_of(secret@, user, exp, qps)),
                now,
            ),
        ) && parse_token_text(record_text(user, exp, qps, sig_text_of(secret@, user, exp, qps)))
            == Some(
            (user, exp, qps, Some(sig_text_of(secret@, user, exp, qps))),
        ) by {
            lemma_parse_of_record(user, exp, qps, sig_text_of(secret@, user, exp, qps));
        }
    }
    r
}

/// Verifies `token` under `secret` at the time of the call.
pub fn verify_token(token: &str, secret: &str) -> (r: Result<AuthToken, TokenError>)
    ensures
        forall|j: Seq<char>|
            token@ == b64url_of(#[trigger] vstd::utf8::encode_utf8(j)) ==> exists|now: u64|
                outcome_matches(r, verify_text_outcome(secret@, j, now)),
        (forall|j: Seq<char>| token@ != b64url_of(#[trigger] vstd::utf8::encode_utf8(j))) ==> r
            == Err::<AuthToken, TokenError>(TokenError::DecodeError),
        r matches Ok(t) ==> (t.sig matches Some(sg) && sg@ == sig_text_of(
            secret@,
            t.user@,
            t.exp,
            t.qps,
        ) && token@ == token_text_of(secret@, t.user@, t.exp, t.qps)),
{
    let now = now_secs();
    let r = verify_token_at(token, secret, now);
    proof {
        assert forall|j: Seq<char>|
            token@ == b64url_of(#[trigger] vstd::utf8::encode_utf8(j)) implies exists|n: u64|
            outcome_matches(r, verify_text_outcome(secret@, j, n)) by {
            assert(outcome_matches(r, verify_text_outcome(secret@, j, now)));
        }
    }
    r
}

} // verus!

