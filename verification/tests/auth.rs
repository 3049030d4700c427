use note4keep::password::{compare, encrypt};
use note4keep::request::{extract, require_auth, AuthError, ExtractError};
use note4keep::token::{compare_jwt, create_jwt, VerifyError, TOKEN_TTL_SECONDS};
use note4keep::users::{create_user, log_in, CreateUser, HandlerError, LogUser, User};

const SECRET: &[u8] = b"test-signing-secret";
const NOW: u64 = 1_700_000_000;

fn secret() -> Vec<u8> {
    SECRET.to_vec()
}

#[test]
fn password_hash_then_verify_succeeds() {
    let p = b"secret123".to_vec();
    let digest = encrypt(&p).expect("hashing must succeed");
    assert_ne!(digest, p);
    assert_eq!(compare(&p, &digest), Ok(true));
}

#[test]
fn password_wrong_password_fails() {
    let digest = encrypt(&b"secret123".to_vec()).expect("hashing must succeed");
    assert_eq!(compare(&b"secret124".to_vec(), &digest), Ok(false));
    assert_eq!(compare(&b"".to_vec(), &digest), Ok(false));
}

#[test]
fn password_two_hashes_of_same_password_differ() {
    let p = b"secret123".to_vec();
    let d1 = encrypt(&p).expect("hashing must succeed");
    let d2 = encrypt(&p).expect("hashing must succeed");
    // the salt is random, so the digests differ, yet both verify
    assert_ne!(d1, d2);
    assert_eq!(compare(&p, &d1), Ok(true));
    assert_eq!(compare(&p, &d2), Ok(true));
}

#[test]
fn password_malformed_digest_errs() {
    assert!(compare(&b"p".to_vec(), &b"not a digest".to_vec()).is_err());
    assert!(compare(&b"p".to_vec(), &vec![0xff, 0xfe]).is_err());
}

#[test]
fn token_round_trip_before_expiry() {
    let tok = create_jwt(
        b"alice".to_vec(),
        b"id42".to_vec(),
        Some(b"a@example.com".to_vec()),
        &secret(),
        NOW,
    );
    let c = compare_jwt(&tok, &secret(), NOW + 10).expect("fresh token must verify");
    assert_eq!(c.username, b"alice".to_vec());
    assert_eq!(c.userid, b"id42".to_vec());
    assert_eq!(c.email, Some(b"a@example.com".to_vec()));
    assert_eq!(c.iat, NOW);
    assert_eq!(c.exp, NOW + TOKEN_TTL_SECONDS);
}

#[test]
fn token_round_trip_at_expiry_instant() {
    let tok = create_jwt(b"bob".to_vec(), b"id7".to_vec(), None, &secret(), NOW);
    // the expiry instant itself is still valid; one past it is not
    let c = compare_jwt(&tok, &secret(), NOW + TOKEN_TTL_SECONDS).expect("still valid at expiry");
    assert_eq!(c.email, None);
    assert_eq!(
        compare_jwt(&tok, &secret(), NOW + TOKEN_TTL_SECONDS + 1),
        Err(VerifyError::Expired)
    );
}

#[test]
fn token_expired_for_any_later_instant() {
    let tok = create_jwt(b"bob".to_vec(), b"id7".to_vec(), None, &secret(), NOW);
    for later in [1u64, 2, 1000, 1_000_000] {
        assert_eq!(
            compare_jwt(&tok, &secret(), NOW + TOKEN_TTL_SECONDS + later),
            Err(VerifyError::Expired)
        );
    }
}

#[test]
fn token_tampering_any_payload_byte_breaks_signature() {
    let tok = create_jwt(
        b"alice".to_vec(),
        b"id42".to_vec(),
        Some(b"a@example.com".to_vec()),
        &secret(),
        NOW,
    );
    let d1 = tok.iter().position(|&b| b == b'.').unwrap();
    let d2 = d1 + 1 + tok[d1 + 1..].iter().position(|&b| b == b'.').unwrap();
    assert!(d2 > d1 + 1);
    for i in d1 + 1..d2 {
        let mut bad = tok.clone();
        bad[i] ^= 1;
        assert_eq!(
            compare_jwt(&bad, &secret(), NOW),
            Err(VerifyError::InvalidSignature),
            "tampered byte {} must break the signature",
            i
        );
    }
}

#[test]
fn token_wrong_secret_is_invalid_signature() {
    let tok = create_jwt(b"alice".to_vec(), b"id42".to_vec(), None, &secret(), NOW);
    assert_eq!(
        compare_jwt(&tok, &b"another-secret".to_vec(), NOW),
        Err(VerifyError::InvalidSignature)
    );
}

#[test]
fn token_malformed_inputs() {
    assert_eq!(
        compare_jwt(&b"".to_vec(), &secret(), NOW),
        Err(VerifyError::Malformed)
    );
    assert_eq!(
        compare_jwt(&b"abc".to_vec(), &secret(), NOW),
        Err(VerifyError::Malformed)
    );
    assert_eq!(
        compare_jwt(&b"a.b.c".to_vec(), &secret(), NOW),
        Err(VerifyError::Malformed)
    );
}

#[test]
fn extract_missing_header() {
    assert_eq!(extract(None), Err(ExtractError::MissingHeader));
}

#[test]
fn extract_wrong_scheme() {
    assert_eq!(
        extract(Some(&b"Basic xyz".to_vec())),
        Err(ExtractError::MalformedScheme)
    );
}

#[test]
fn extract_blank_token() {
    assert_eq!(
        extract(Some(&b"Bearer   ".to_vec())),
        Err(ExtractError::EmptyToken)
    );
    assert_eq!(extract(Some(&b"Bearer".to_vec())), Err(ExtractError::EmptyToken));
    assert_eq!(
        extract(Some(&b"Bearer \t ".to_vec())),
        Err(ExtractError::EmptyToken)
    );
}

#[test]
fn extract_case_insensitive_scheme() {
    assert_eq!(extract(Some(&b"bearer abc123".to_vec())), Ok(b"abc123".to_vec()));
    assert_eq!(extract(Some(&b"BEARER abc123".to_vec())), Ok(b"abc123".to_vec()));
    assert_eq!(extract(Some(&b"Bearer   abc123  ".to_vec())), Ok(b"abc123".to_vec()));
    assert_eq!(extract(Some(&b"Bearer \tabc123\t".to_vec())), Ok(b"abc123".to_vec()));
}

#[test]
fn extract_undelimited_scheme_is_malformed() {
    assert_eq!(
        extract(Some(&b"bearerabc123".to_vec())),
        Err(ExtractError::MalformedScheme)
    );
}

fn bearer(tok: &[u8]) -> Vec<u8> {
    let mut h = b"Bearer ".to_vec();
    h.extend_from_slice(tok);
    h
}

#[test]
fn end_to_end_register_then_protected_call() {
    let req = CreateUser {
        username: b"alice".to_vec(),
        password: b"secret123".to_vec(),
        email: Some(b"a@example.com".to_vec()),
    };
    let (user, token) = create_user(&req, false, &secret(), NOW).expect("registration succeeds");
    assert_eq!(user.username, b"alice".to_vec());
    assert!(user.ip.is_none());
    assert_eq!(compare(&b"secret123".to_vec(), &user.password), Ok(true));

    let header = bearer(&token);
    let claims = require_auth(Some(&header), &secret(), NOW + 5).expect("gate must accept");
    assert_eq!(claims.username, b"alice".to_vec());
    // downstream logic receives the stored record's key as its tenancy filter
    assert_eq!(claims.userid, user.user_id);
}

#[test]
fn end_to_end_no_header_is_bad_request() {
    assert_eq!(require_auth(None, &secret(), NOW), Err(AuthError::BadRequest));
}

#[test]
fn end_to_end_wrong_secret_is_unauthorized() {
    let tok = create_jwt(b"alice".to_vec(), b"id42".to_vec(), None, &b"other-secret".to_vec(), NOW);
    assert_eq!(
        require_auth(Some(&bearer(&tok)), &secret(), NOW),
        Err(AuthError::Unauthorized)
    );
}

#[test]
fn end_to_end_expired_token_is_unauthorized() {
    let tok = create_jwt(b"alice".to_vec(), b"id42".to_vec(), None, &secret(), NOW);
    assert_eq!(
        require_auth(Some(&bearer(&tok)), &secret(), NOW + TOKEN_TTL_SECONDS + 1),
        Err(AuthError::Unauthorized)
    );
}

#[test]
fn register_conflict_when_name_taken() {
    let req = CreateUser {
        username: b"alice".to_vec(),
        password: b"secret123".to_vec(),
        email: None,
    };
    assert!(matches!(
        create_user(&req, true, &secret(), NOW),
        Err(HandlerError::Conflict)
    ));
}

#[test]
fn login_unknown_user_is_not_found() {
    let req = LogUser { username: b"alice".to_vec(), password: b"secret123".to_vec() };
    assert!(matches!(
        log_in(&req, None, &secret(), NOW),
        Err(HandlerError::NotFound)
    ));
}

#[test]
fn login_wrong_password_is_unauthorized() {
    let digest = encrypt(&b"secret123".to_vec()).expect("hashing must succeed");
    let user = User {
        user_id: b"id42".to_vec(),
        username: b"alice".to_vec(),
        password: digest,
        email: None,
        ip: None,
    };
    let req = LogUser { username: b"alice".to_vec(), password: b"wrong".to_vec() };
    assert!(matches!(
        log_in(&req, Some(&user), &secret(), NOW),
        Err(HandlerError::Unauthorized)
    ));
}

#[test]
fn login_bad_stored_digest_is_internal() {
    let user = User {
        user_id: b"id42".to_vec(),
        username: b"alice".to_vec(),
        password: b"garbage".to_vec(),
        email: None,
        ip: None,
    };
    let req = LogUser { username: b"alice".to_vec(), password: b"secret123".to_vec() };
    assert!(matches!(
        log_in(&req, Some(&user), &secret(), NOW),
        Err(HandlerError::Internal)
    ));
}

#[test]
fn login_success_issues_token_for_stored_identity() {
    let digest = encrypt(&b"secret123".to_vec()).expect("hashing must succeed");
    let user = User {
        user_id: b"id42".to_vec(),
        username: b"alice".to_vec(),
        password: digest,
        email: Some(b"a@example.com".to_vec()),
        ip: None,
    };
    let req = LogUser { username: b"alice".to_vec(), password: b"secret123".to_vec() };
    let tok = log_in(&req, Some(&user), &secret(), NOW).expect("login succeeds");
    let claims = compare_jwt(&tok, &secret(), NOW).expect("issued token verifies");
    assert_eq!(claims.username, b"alice".to_vec());
    assert_eq!(claims.userid, b"id42".to_vec());
    assert_eq!(claims.email, Some(b"a@example.com".to_vec()));
    assert_eq!(claims.iat, NOW);
    assert_eq!(claims.exp, NOW + TOKEN_TTL_SECONDS);
}
