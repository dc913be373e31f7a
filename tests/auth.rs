use tow_dispatch::auth::{
    generate_session_token, hash_outcome, hash_password, verification_outcome, verify_password,
    TOKEN_LENGTH,
};
use tow_dispatch::error::AppError;

#[test]
fn session_token_is_thirty_letters_and_digits() {
    let token = generate_session_token();
    assert_eq!(token.chars().count(), TOKEN_LENGTH);
    assert_eq!(TOKEN_LENGTH, 30);
    assert!(token.chars().all(|c| c.is_ascii_alphanumeric()));
}

#[test]
fn session_tokens_differ() {
    assert_ne!(generate_session_token(), generate_session_token());
}

#[test]
fn password_hash_round_trip() {
    let hash = hash_password("s3cret").unwrap();
    assert!(hash.starts_with("$argon2id$"));
    assert_ne!(hash, "s3cret");
    assert_eq!(verify_password(&hash, "s3cret"), Ok(true));
    assert_eq!(verify_password(&hash, "wrong"), Ok(false));
    let other = hash_password("s3cret").unwrap();
    assert_ne!(other, hash);
    assert_eq!(verify_password(&other, "s3cret"), Ok(true));
}

#[test]
fn unparsable_hash_is_internal_error() {
    assert_eq!(verify_password("not a hash", "s3cret"), Err(AppError::InternalServerError));
}

#[test]
fn outcomes_map_failures() {
    assert_eq!(hash_outcome(None), Err(AppError::InternalServerError));
    assert_eq!(hash_outcome(Some("h".to_string())), Ok("h".to_string()));
    assert_eq!(verification_outcome(None), Err(AppError::InternalServerError));
    assert_eq!(verification_outcome(Some(false)), Ok(false));
}
