use rpc_gateway::config::Settings;
use rpc_gateway::token::generate_token;
use rpc_gateway::token::issue_token;
use rpc_gateway::token::verify_token;
use rpc_gateway::token::verify_token_at;
use rpc_gateway::token::AuthToken;
use rpc_gateway::token::TokenError;

#[test]
fn test_generate_token() {
    let settings = Settings::new().unwrap();
    let secret = settings.app.secret_key.clone();
    let token = generate_token(&secret, "jeffro", 1, 1800);

    println!("Generated token: {}", token);
}

#[test]
fn test_generate_and_verify_token() {
    let settings = Settings::new().unwrap();
    let secret = settings.app.secret_key.clone();
    let token = generate_token(&secret, "jeffro", 100, 1800);

    println!("Generated token: {}", token);

    let verified_token = verify_token(&token, &secret).unwrap();
    println!("Verified token: {:?}", verified_token);
}

#[test]
fn issue_then_verify_returns_same_fields() {
    let token = issue_token("s3cret", "alice", 42, 5_000);
    let auth = verify_token_at(&token, "s3cret", 4_999).unwrap();
    assert_eq!(auth.user, "alice");
    assert_eq!(auth.exp, 5_000);
    assert_eq!(auth.qps, 42);
    let auth2 = verify_token_at(&token, "s3cret", 5_000).unwrap();
    assert_eq!(auth2.user, "alice");
}

#[test]
fn flipping_any_byte_never_verifies() {
    let token = issue_token("s3cret", "alice", 3, 10_000);
    for i in 0..token.len() {
        let mut bytes = token.clone().into_bytes();
        bytes[i] ^= 1;
        let mutated = String::from_utf8(bytes).unwrap();
        if mutated == token {
            continue;
        }
        let r = verify_token_at(&mutated, "s3cret", 0);
        assert!(
            matches!(
                r,
                Err(TokenError::InvalidSignature) | Err(TokenError::DecodeError)
            ),
            "byte {} flipped: {:?}",
            i,
            r
        );
    }
}

#[test]
fn expired_token_is_rejected_even_with_valid_signature() {
    let token = issue_token("s3cret", "alice", 3, 1_000);
    assert!(matches!(
        verify_token_at(&token, "s3cret", 1_001),
        Err(TokenError::Expired)
    ));
    let ancient = issue_token("s3cret", "bob", 1, 0);
    assert!(matches!(
        verify_token(&ancient, "s3cret"),
        Err(TokenError::Expired)
    ));
}

#[test]
fn wrong_secret_is_an_invalid_signature() {
    let token = issue_token("s3cret", "alice", 3, 10_000);
    assert!(matches!(
        verify_token_at(&token, "other", 0),
        Err(TokenError::InvalidSignature)
    ));
}

#[test]
fn garbage_tokens_are_decode_errors() {
    assert!(matches!(
        verify_token_at("not base64!!", "s", 0),
        Err(TokenError::DecodeError)
    ));
    assert!(matches!(
        verify_token_at("aGVsbG8", "s", 0),
        Err(TokenError::DecodeError)
    ));
    assert!(matches!(
        verify_token_at("", "s", 0),
        Err(TokenError::DecodeError)
    ));
}

#[test]
fn token_without_signature_is_missing_signature() {
    let bare = AuthToken {
        user: String::from("alice"),
        exp: 10_000,
        qps: 3,
        sig: None,
    };
    let token = bare.generate_token().unwrap();
    assert!(matches!(
        verify_token_at(&token, "s3cret", 0),
        Err(TokenError::MissingSignature)
    ));
}

#[test]
fn signable_string_is_the_canonical_json() {
    let t = AuthToken {
        user: String::from("alice"),
        exp: 123,
        qps: 7,
        sig: None,
    };
    assert_eq!(
        t.signable_string().unwrap(),
        "{\"user\":\"alice\",\"exp\":123,\"qps\":7}"
    );
}

#[test]
fn compute_signature_fills_when_asked() {
    let mut t = AuthToken {
        user: String::from("alice"),
        exp: 123,
        qps: 7,
        sig: None,
    };
    let s1 = t.compute_signature("k", false).unwrap();
    assert!(t.sig.is_none());
    let s2 = t.compute_signature("k", true).unwrap();
    assert_eq!(s1, s2);
    assert_eq!(t.sig.as_deref(), Some(s1.as_str()));
}

#[test]
fn awkward_user_ids_round_trip() {
    for user in ["", "a\"b", "a\\b", "line\nbreak", "tab\tand\u{1}ctl", "héllo wörld"] {
        let token = issue_token("k", user, 9, 100);
        let auth = verify_token_at(&token, "k", 50).unwrap();
        assert_eq!(auth.user, user);
        assert_eq!(auth.qps, 9);
    }
}
