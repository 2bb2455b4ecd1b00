use blog_backend::errors::ApiError;
use blog_backend::hashing::{hash_password, hash_round_trip, hash_then_verify, verify_password};
use blog_backend::middleware::auth_middleware;
use blog_backend::token::{decode_token, encode_token};
use blog_backend::users::{LoginPayload, RegisterPayload, UserStore};

const SECRET: &[u8] = b"test-signing-secret";

fn register_payload(username: &str, email: &str, password: &str) -> RegisterPayload {
    RegisterPayload {
        username: username.to_string(),
        email: email.to_string(),
        password: password.to_string(),
    }
}

fn login_payload(email: &str, password: &str) -> LoginPayload {
    LoginPayload { email: email.to_string(), password: password.to_string() }
}

#[test]
fn register_same_email_twice_conflicts() {
    let mut store = UserStore::new();
    let first = store.register(&register_payload("alice", "a@example.com", "pw1"));
    assert!(first.is_ok());
    let second = store.register(&register_payload("alice2", "a@example.com", "pw2"));
    assert_eq!(second, Err(ApiError::Conflict));
}

#[test]
fn register_same_username_conflicts() {
    let mut store = UserStore::new();
    assert!(store.register(&register_payload("bob", "b1@example.com", "pw")).is_ok());
    let second = store.register(&register_payload("bob", "b2@example.com", "pw"));
    assert_eq!(second, Err(ApiError::Conflict));
}

#[test]
fn register_assigns_sequential_ids() {
    let mut store = UserStore::new();
    assert_eq!(store.register(&register_payload("u1", "u1@example.com", "pw")), Ok(0));
    assert_eq!(store.register(&register_payload("u2", "u2@example.com", "pw")), Ok(1));
}

#[test]
fn login_token_carries_registered_user_id() {
    let mut store = UserStore::new();
    let id = store.register(&register_payload("carol", "c@example.com", "hunter2")).unwrap();
    let resp = store.login(&login_payload("c@example.com", "hunter2"), 1_000, SECRET).unwrap();
    let claims = decode_token(&resp.token, SECRET).expect("token must decode under the secret");
    assert_eq!(claims.sub, id.to_string());
    assert_eq!(claims.exp, 1_000 + 86_400);
    // The middleware accepts it before expiry and hands back the same subject.
    let header = format!("Bearer {}", resp.token);
    let sub = auth_middleware(Some(&header), SECRET, 2_000).unwrap();
    assert_eq!(sub, id.to_string());
}

#[test]
fn login_wrong_password_is_invalid_credential() {
    let mut store = UserStore::new();
    store.register(&register_payload("dave", "d@example.com", "right")).unwrap();
    let r = store.login(&login_payload("d@example.com", "wrong"), 0, SECRET);
    assert!(matches!(r, Err(ApiError::InvalidCredential)));
}

#[test]
fn login_unknown_email_is_not_found() {
    let store = UserStore::new();
    let r = store.login(&login_payload("nobody@example.com", "pw"), 0, SECRET);
    assert!(matches!(r, Err(ApiError::NotFound)));
}

#[test]
fn expired_token_is_rejected() {
    let mut store = UserStore::new();
    store.register(&register_payload("erin", "e@example.com", "pw")).unwrap();
    let resp = store.login(&login_payload("e@example.com", "pw"), 0, SECRET).unwrap();
    let header = format!("Bearer {}", resp.token);
    // Expiry is 86_400; the middleware demands expiry strictly after `now`.
    assert_eq!(auth_middleware(Some(&header), SECRET, 86_400), Err(ApiError::Unauthorized));
    assert_eq!(auth_middleware(Some(&header), SECRET, 500_000), Err(ApiError::Unauthorized));
    // Before expiry the same header is accepted.
    assert!(auth_middleware(Some(&header), SECRET, 86_399).is_ok());
}

#[test]
fn middleware_rejects_missing_or_malformed_headers() {
    assert_eq!(auth_middleware(None, SECRET, 0), Err(ApiError::Unauthorized));
    assert_eq!(auth_middleware(Some(""), SECRET, 0), Err(ApiError::Unauthorized));
    assert_eq!(auth_middleware(Some("Token abc"), SECRET, 0), Err(ApiError::Unauthorized));
    assert_eq!(auth_middleware(Some("bearer abc"), SECRET, 0), Err(ApiError::Unauthorized));
    assert_eq!(auth_middleware(Some("Bearer garbage"), SECRET, 0), Err(ApiError::Unauthorized));
}

#[test]
fn middleware_rejects_tampered_or_foreign_tokens() {
    let token = encode_token("7", 1_000_000, SECRET);
    let good = format!("Bearer {}", token);
    assert_eq!(auth_middleware(Some(&good), SECRET, 10).unwrap(), "7");
    // A flipped character breaks the signature.
    let tampered = format!("Bearer {}x", token);
    assert_eq!(auth_middleware(Some(&tampered), SECRET, 10), Err(ApiError::Unauthorized));
    // Another secret rejects the token.
    assert_eq!(auth_middleware(Some(&good), b"other-secret", 10), Err(ApiError::Unauthorized));
}

#[test]
fn token_round_trips_through_decode() {
    let token = encode_token("42", 123_456, SECRET);
    let claims = decode_token(&token, SECRET).unwrap();
    assert_eq!(claims.sub, "42");
    assert_eq!(claims.exp, 123_456);
    assert!(decode_token("not.a.token", SECRET).is_none());
}

#[test]
fn password_hash_round_trip() {
    let (same, different) = hash_round_trip("correct horse", "battery staple");
    assert!(same);
    assert!(!different);
}

#[test]
fn password_hash_round_trip_with_fixed_salt() {
    // A fixed 16-byte salt in base64, as the PHC format carries it.
    let salt = "AAAAAAAAAAAAAAAAAAAAAA";
    let (same, different) = hash_then_verify("pw", "pw2", salt);
    assert!(same);
    assert!(!different);
    // The stored hash is not the password itself.
    let hash = hash_password("pw", salt);
    assert_ne!(hash, "pw");
    assert!(verify_password("pw", &hash));
    assert!(!verify_password("", &hash));
    // A malformed stored hash verifies against nothing.
    assert!(!verify_password("pw", "not-a-phc-hash"));
}
