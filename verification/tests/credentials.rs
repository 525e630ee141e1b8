use classroom_backend::jwt::{check_auth, create_jwt, validate_jwt};
use classroom_backend::ApiError;

const NOW: i64 = 1_700_000_000;
const WEEK: i64 = 604_800;

fn secret() -> Vec<u8> {
    b"a-test-signing-secret".to_vec()
}

#[test]
fn issued_token_validates() {
    let s = secret();
    let token = create_jwt(&s, 7, NOW).unwrap();
    let claims = validate_jwt(&s, &token, NOW + 3600).unwrap();
    assert_eq!(claims.sub, 7);
    assert_eq!(claims.iat, NOW);
    assert_eq!(claims.exp, NOW + WEEK);
}

#[test]
fn token_still_valid_at_exact_expiry() {
    let s = secret();
    let token = create_jwt(&s, 1, NOW).unwrap();
    let claims = validate_jwt(&s, &token, NOW + WEEK).unwrap();
    assert_eq!(claims.sub, 1);
}

#[test]
fn expired_token_rejected() {
    let s = secret();
    let token = create_jwt(&s, 1, NOW).unwrap();
    let r = validate_jwt(&s, &token, NOW + WEEK + 1);
    assert_eq!(r, Err(ApiError::InvalidCredential));
}

#[test]
fn expired_token_rejected_even_with_valid_signature() {
    // the signature of this token is genuine; only time has passed
    let s = secret();
    let token = create_jwt(&s, 42, NOW).unwrap();
    assert!(validate_jwt(&s, &token, NOW).is_ok());
    let r = validate_jwt(&s, &token, NOW + 10 * WEEK);
    assert_eq!(r, Err(ApiError::InvalidCredential));
}

#[test]
fn wrong_secret_rejected() {
    let s = secret();
    let other = b"another-secret".to_vec();
    let token = create_jwt(&s, 1, NOW).unwrap();
    let r = validate_jwt(&other, &token, NOW);
    assert_eq!(r, Err(ApiError::InvalidCredential));
}

#[test]
fn tampered_payload_rejected() {
    let s = secret();
    let token = create_jwt(&s, 1, NOW).unwrap();
    // flip one payload character, keeping the signature
    let mut bytes: Vec<char> = token.chars().collect();
    bytes[1] = if bytes[1] == 'A' { 'B' } else { 'A' };
    let forged: String = bytes.into_iter().collect();
    let r = validate_jwt(&s, &forged, NOW);
    assert_eq!(r, Err(ApiError::InvalidCredential));
}

#[test]
fn malformed_tokens_rejected() {
    let s = secret();
    assert_eq!(validate_jwt(&s, "", NOW), Err(ApiError::InvalidCredential));
    assert_eq!(validate_jwt(&s, "nodot", NOW), Err(ApiError::InvalidCredential));
    assert_eq!(validate_jwt(&s, "a.b", NOW), Err(ApiError::InvalidCredential));
    assert_eq!(validate_jwt(&s, "..", NOW), Err(ApiError::InvalidCredential));
}

#[test]
fn token_has_payload_and_signature_parts() {
    let s = secret();
    let token = create_jwt(&s, 1, NOW).unwrap();
    let parts: Vec<&str> = token.split('.').collect();
    assert_eq!(parts.len(), 2);
    assert!(!parts[0].is_empty());
    assert!(!parts[1].is_empty());
}

#[test]
fn missing_cookie_is_unauthenticated() {
    let s = secret();
    let r = check_auth(&s, None, NOW);
    assert_eq!(r, Err(ApiError::InvalidCredential));
}

#[test]
fn present_cookie_authenticates() {
    let s = secret();
    let token = create_jwt(&s, 9, NOW).unwrap();
    let claims = check_auth(&s, Some(&token), NOW).unwrap();
    assert_eq!(claims.sub, 9);
}
