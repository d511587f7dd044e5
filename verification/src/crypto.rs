//! Cryptographic and encoding primitives that the token protocol rests on.
//!
//! The HMAC computation and the base64url codec are outside calls; their
//! results are named by uninterpreted functions and everything the library
//! proves about tokens is stated over those names.  The constant-time byte
//! comparison is the library's own, verified code.

use vstd::prelude::*;
use vstd::string::StringSliceAdditionalSpecFns;

use base64::Engine;
use base64::engine::general_purpose::URL_SAFE_NO_PAD;
use hmac::{Hmac, KeyInit, Mac};
use sha2::Sha256;

verus! {

/// The HMAC-SHA256 tag over `msg` keyed with `secret`, both given as the
/// UTF-8 text they are computed from.  A function of its arguments alone.
pub uninterp spec fn hmac_sha256_of(secret: Seq<char>, msg: Seq<char>) -> Seq<u8>;

/// The base64url (no padding) rendering of `bytes`.  A function of its
/// argument alone.
pub uninterp spec fn b64url_of(bytes: Seq<u8>) -> Seq<char>;

/// Relies on `Hmac::<Sha256>` of the hmac crate (with sha2): keys of any
/// length are accepted and the tag is 32 bytes, a function of key and
/// message alone.
#[verifier::external_body]
pub fn hmac_sha256(secret: &str, msg: &str) -> (r: Vec<u8>)
    ensures
        r@ == hmac_sha256_of(secret@, msg@),
        r@.len() == 32,
{
    let mut mac = Hmac::<Sha256>::new_from_slice(secret.as_bytes())
        .expect("HMAC accepts keys of any length");
    mac.update(msg.as_bytes());
    mac.finalize().into_bytes().to_vec()
}

/// Relies on base64's `URL_SAFE_NO_PAD` engine: encoding is a function of
/// the input bytes alone.
#[verifier::external_body]
pub fn b64url_encode(bytes: &Vec<u8>) -> (r: String)
    ensures
        r@ == b64url_of(bytes@),
{
    URL_SAFE_NO_PAD.encode(bytes)
}

/// Relies on base64's `URL_SAFE_NO_PAD` engine: with padding forbidden and
/// trailing bits checked, decoding succeeds exactly on canonical encodings
/// and inverts them.
#[verifier::external_body]
pub fn b64url_decode(s: &str) -> (r: Option<Vec<u8>>)
    ensures
        r is Some ==> s@ == b64url_of(r->0@),
        forall|b: Seq<u8>| s@ == #[trigger] b64url_of(b) ==> r is Some && r->0@ == b,
{
    URL_SAFE_NO_PAD.decode(s).ok()
}

/// Relies on `String::from_utf8` of std: it succeeds exactly on valid UTF-8
/// and returns the text whose encoding is the input.
#[verifier::external_body]
pub fn bytes_to_string(bytes: Vec<u8>) -> (r: Option<String>)
    ensures
        r is Some ==> vstd::utf8::encode_utf8(r->0@) == bytes@,
        vstd::utf8::valid_utf8(bytes@) ==> r is Some,
{
    String::from_utf8(bytes).ok()
}

proof fn lemma_u8_xor_zero(x: u8, y: u8)
    ensures
        (x ^ y) == 0 <==> x == y,
{
    assert((x ^ y) == 0 <==> x == y) by (bit_vector);
}

proof fn lemma_u8_or_zero(x: u8, y: u8)
    ensures
        (x | y) == 0 <==> x == 0 && y == 0,
{
    assert((x | y) == 0 <==> x == 0 && y == 0) by (bit_vector);
}

/// Compares two byte strings without an early exit on the first differing
/// byte: the accumulated difference is folded with `|`, so the time spent
/// depends only on the lengths.
pub fn ct_bytes_eq(a: &[u8], b: &[u8]) -> (r: bool)
    ensures
        r == (a@ == b@),
{
    if a.len() != b.len() {
        proof {
            assert(a@.len() != b@.len());
        }
        return false;
    }
    let n = a.len();
    let mut acc: u8 = 0;
    let mut i: usize = 0;
    while i < n
        invariant
            n == a@.len(),
            a@.len() == b@.len(),
            0 <= i <= n,
            acc == 0 <==> (forall|j: int| 0 <= j < i ==> a@[j] == b@[j]),
        decreases n - i,
    {
        let d = a[i] ^ b[i];
        proof {
            lemma_u8_xor_zero(a@[i as int], b@[i as int]);
            lemma_u8_or_zero(acc, d);
        }
        acc = acc | d;
        i = i + 1;
    }
    if acc == 0 {
        proof {
            assert(a@ =~= b@);
        }
        true
    } else {
        false
    }
}

/// Constant-time equality of two pieces of text, compared byte for byte on
/// their UTF-8 encodings.
pub fn ct_str_eq(a: &str, b: &str) -> (r: bool)
    ensures
        r == (a@ == b@),
{
    let r = ct_bytes_eq(a.as_bytes(), b.as_bytes());
    proof {
        if a.spec_bytes() == b.spec_bytes() {
            vstd::utf8::encode_utf8_decode_utf8(a@);
            vstd::utf8::encode_utf8_decode_utf8(b@);
        }
    }
    r
}

} // verus!
