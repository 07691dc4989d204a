use contact_core::token::{BearerError, JwtService, TokenError, TOKEN_LIFETIME_SECS};

const USER: u128 = 0x0123_4567_89ab_cdef_0123_4567_89ab_cdef;

#[test]
fn token_accepted_before_expiry_and_rejected_after() {
    let jwt = JwtService::new("k".to_string());
    let t: u64 = 1_700_000_000;
    let token = jwt.generate_token_at(USER, t);
    let ok = jwt.verify_token_at(&token, t + 23 * 3600 + 59 * 60).unwrap();
    assert_eq!(ok.sub, "01234567-89ab-cdef-0123-456789abcdef");
    assert_eq!(ok.exp, t + 86400);
    assert_eq!(TOKEN_LIFETIME_SECS, 86400);
    assert_eq!(
        jwt.verify_token_at(&token, t + 24 * 3600 + 60).err(),
        Some(TokenError::Expired)
    );
    assert_eq!(jwt.verify_token_at(&token, t + 86400).err(), Some(TokenError::Expired));
    assert!(jwt.verify_token_at(&token, t + 86399).is_ok());
}

#[test]
fn token_from_another_key_has_bad_signature() {
    let issuer = JwtService::new("one-key".to_string());
    let verifier = JwtService::new("other-key".to_string());
    let token = issuer.generate_token_at(USER, 1000);
    assert_eq!(verifier.verify_token_at(&token, 1000).err(), Some(TokenError::BadSignature));
}

#[test]
fn garbage_token_is_malformed() {
    let jwt = JwtService::new("k".to_string());
    assert_eq!(jwt.verify_token_at("a.b.c", 0).err(), Some(TokenError::Malformed));
    assert_eq!(jwt.verify_token_at("", 0).err(), Some(TokenError::Malformed));
}

#[test]
fn clock_token_verifies_now() {
    let jwt = JwtService::new("k".to_string());
    let token = jwt.generate_token(USER).unwrap();
    assert_eq!(uuid::Uuid::parse_str(&jwt.verify_token(&token).unwrap().sub).unwrap().as_u128(), USER);
    let claims = jwt.verify_token(&token).unwrap();
    assert_eq!(claims.exp, claims.iat + TOKEN_LIFETIME_SECS);
    assert_eq!(jwt.extract_user_id(Some(&format!("Bearer {}", token))), Ok(USER));
}

#[test]
fn bearer_header_resolution() {
    let jwt = JwtService::new("k".to_string());
    let token = jwt.generate_token_at(USER, 50);
    assert_eq!(jwt.extract_user_id_at(None, 50), Err(BearerError::Missing));
    assert_eq!(jwt.extract_user_id_at(Some(&token), 50), Err(BearerError::BadFormat));
    assert_eq!(jwt.extract_user_id_at(Some("Bearer"), 50), Err(BearerError::BadFormat));
    assert_eq!(
        jwt.extract_user_id_at(Some(&format!("bearer {}", token)), 50),
        Err(BearerError::BadFormat)
    );
    assert_eq!(jwt.extract_user_id_at(Some(&format!("Bearer {}", token)), 50), Ok(USER));
    assert_eq!(
        jwt.extract_user_id_at(Some(&format!("Bearer {}", token)), 50 + 86400),
        Err(BearerError::Token(TokenError::Expired))
    );
}
