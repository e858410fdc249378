use storefront::token::{gen_token, verify_token, TokenError};

#[test]
fn issued_token_verifies_with_same_secret() {
    let token = gen_token(17, "bob@smith.com", b"secret").unwrap();
    let claims = verify_token(&token, b"secret").unwrap();
    assert_eq!(
        claims,
        vec![
            ("email".to_string(), "bob@smith.com".to_string()),
            ("id".to_string(), "17".to_string()),
            ("role".to_string(), "user".to_string()),
        ]
    );
}

#[test]
fn negative_id_is_written_with_sign() {
    let token = gen_token(i64::MIN, "a@b.c", b"k").unwrap();
    let claims = verify_token(&token, b"k").unwrap();
    assert_eq!(claims[1], ("id".to_string(), i64::MIN.to_string()));
}

#[test]
fn token_with_other_secret_is_rejected() {
    let token = gen_token(1, "a@b.c", b"one").unwrap();
    assert_eq!(verify_token(&token, b"two"), Err(TokenError::Verify));
    assert_eq!(verify_token("not a token", b"one"), Err(TokenError::Verify));
}
