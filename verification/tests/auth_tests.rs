use lsproxy::auth::{
    auth_outcome, bearer_token, is_auth_enabled, validate_jwt_config, AuthOutcome, Claims, JwtMiddleware,
};
use std::time::{SystemTime, UNIX_EPOCH};

fn some(s: &str) -> Option<String> {
    Some(s.to_string())
}

#[test]
fn auth_is_on_unless_turned_off() {
    assert!(is_auth_enabled(&None));
    assert!(is_auth_enabled(&some("true")));
    assert!(!is_auth_enabled(&some("false")));
    assert!(!is_auth_enabled(&some("TRUE")));
}

#[test]
fn jwt_config_needs_a_secret_when_auth_is_on() {
    assert_eq!(validate_jwt_config(&some("false"), None), Ok("Authentication disabled".to_string()));
    assert_eq!(validate_jwt_config(&None, some("s3")), Ok("s3".to_string()));
    let e = validate_jwt_config(&None, None).unwrap_err();
    assert!(e.starts_with("JWT_SECRET environment variable not set."));
}

#[test]
fn bearer_tokens_are_read_from_the_header() {
    assert_eq!(bearer_token("Bearer abc"), some("abc"));
    assert_eq!(bearer_token("Bearer Bearer abc"), some("abc"));
    assert_eq!(bearer_token("Basic abc"), None);
    assert_eq!(bearer_token("Bearer "), some(""));
}

fn reject(status: u16, message: &str) -> AuthOutcome {
    AuthOutcome::Reject { status, message: message.to_string() }
}

#[test]
fn test_missing_auth_header_outcome() {
    let service = JwtMiddleware.new_transform();
    assert_eq!(service.call(&None, &some("test_secret")), reject(401, "Missing or invalid authorization header"));
    assert_eq!(service.call(&some("Token x"), &some("test_secret")), reject(401, "Missing or invalid authorization header"));
}

#[test]
fn test_invalid_token_outcome() {
    let service = JwtMiddleware.new_transform();
    assert_eq!(service.call(&some("Bearer invalid_token"), &some("test_secret")), reject(401, "Invalid token"));
}

#[test]
fn test_missing_jwt_secret_outcome() {
    let service = JwtMiddleware.new_transform();
    assert_eq!(service.call(&some("Bearer some_token"), &None), reject(500, "JWT_SECRET environment variable not set"));
}

#[test]
fn test_valid_token_outcome() {
    let exp = SystemTime::now().duration_since(UNIX_EPOCH).unwrap().as_secs() as usize + 3600;
    let claims = Claims { exp };
    let mut body = std::collections::BTreeMap::new();
    body.insert("exp", claims.exp);
    let token = jsonwebtoken::encode(
        &jsonwebtoken::Header::default(),
        &body,
        &jsonwebtoken::EncodingKey::from_secret("test_secret".as_bytes()),
    )
    .unwrap();
    let service = JwtMiddleware.new_transform();
    assert_eq!(service.call(&Some(format!("Bearer {}", token)), &some("test_secret")), AuthOutcome::Allow);
    assert_eq!(service.call(&Some(format!("Bearer {}", token)), &some("other_secret")), reject(401, "Invalid token"));
}

#[test]
fn decoded_tokens_pass() {
    assert_eq!(auth_outcome(&some("Bearer t"), &some("s"), true), AuthOutcome::Allow);
    assert_eq!(auth_outcome(&some("Bearer t"), &some("s"), false), reject(401, "Invalid token"));
}
